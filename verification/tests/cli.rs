use dar::cli::{patterns_from_text, CliArgs, CliParseError as ArgsError, DaryaCli, InterfaceMode};
use dar::command::{CliCommand, CliParseError, ParseStep};
use dar::display::DisplayOptions;
use dar::launch::{
    exclude_patterns, export_options_from_cli, run_mode, scan_options, worker_threads, RunMode,
};
use dar::config::ScanConfig;
use dar::snapshot::{SnapshotEndpoint, SnapshotFormat};

fn strings(args: &[&str]) -> Vec<String> {
    args.iter().map(|a| a.to_string()).collect()
}

/// Drives the reader, answering its requests for exclude-from files from
/// `files` (path, contents or error).
fn parse_with(args: &[&str], files: &[(&str, Result<&str, &str>)]) -> Result<CliCommand, CliParseError> {
    let mut given: Vec<Result<String, String>> = Vec::new();
    loop {
        match CliCommand::parse_from_iter(strings(args), Ok("/work".to_string()), given.clone()) {
            ParseStep::Done(r) => return r,
            ParseStep::NeedFile(path) => {
                let found = files.iter().find(|(p, _)| *p == path).expect("unexpected file request");
                given.push(match found.1 {
                    Ok(text) => Ok(text.to_string()),
                    Err(e) => Err(e.to_string()),
                });
            }
        }
    }
}

fn parse(args: &[&str]) -> Result<CliCommand, CliParseError> {
    parse_with(args, &[])
}

fn run_args(args: &[&str]) -> dar::command::CliArgs {
    match parse(args) {
        Ok(CliCommand::Run(cli)) => cli,
        other => panic!("expected run command, got {:?}", other),
    }
}

#[test]
fn parse_help_flag_returns_help() {
    assert!(matches!(parse(&["--help"]), Ok(CliCommand::Help)));
}

#[test]
fn parse_version_flag_returns_version() {
    assert!(matches!(parse(&["-V"]), Ok(CliCommand::Version)));
}

#[test]
fn cli_parse_import_flag_sets_endpoint() {
    let cli = run_args(&["-f", "-"]);
    assert!(matches!(cli.import_snapshot, Some(SnapshotEndpoint::StdIo)));
}

#[test]
fn cli_parse_export_flags_collect_endpoints() {
    let cli = run_args(&["-o", "export.json", "-O", "export.bin"]);
    assert!(matches!(cli.export_json, Some(SnapshotEndpoint::File(_))));
    assert!(matches!(cli.export_binary, Some(SnapshotEndpoint::File(_))));
}

#[test]
fn cli_parse_one_file_system_sets_override() {
    assert_eq!(run_args(&["-x"]).same_fs_override, Some(true));
}

#[test]
fn cli_parse_cross_file_system_sets_override() {
    assert_eq!(run_args(&["--cross-file-system"]).same_fs_override, Some(false));
}

#[test]
fn cli_parse_follow_symlinks_sets_override() {
    assert_eq!(run_args(&["-L"]).follow_symlinks_override, Some(true));
}

#[test]
fn cli_parse_thread_count_sets_override() {
    assert_eq!(run_args(&["-t", "3"]).thread_count, Some(3));
}

#[test]
fn cli_parse_exclude_from_reads_patterns() {
    let path = "/tmp/dar-exclude.tmp";
    let r = parse_with(&["-X", path], &[(path, Ok("ignored\nfoo\n# comment\n"))]);
    match r {
        Ok(CliCommand::Run(cli)) => assert_eq!(cli.exclude_patterns, vec!["ignored", "foo"]),
        other => panic!("expected run command, got {:?}", other),
    }
}

#[test]
fn cli_parse_extended_flag_sets_mode() {
    assert!(run_args(&["-e", "/tmp"]).extended);
}

#[test]
fn cli_parse_no_extended_flag_unsets_mode() {
    assert!(!run_args(&["--no-extended", "/tmp"]).extended);
}

#[test]
fn cli_parse_ignore_config_presets_flag() {
    assert!(run_args(&["--ignore-config"]).ignore_config);
}

#[test]
fn cli_parse_export_tuning_flags() {
    let cli = run_args(&["-c", "--compress-level", "5", "--export-block-size", "16384"]);
    assert!(cli.export_compress);
    assert_eq!(cli.export_compress_level, Some(5));
    assert_eq!(cli.export_block_size, Some(16384));
}

#[test]
fn command_root_defaults_to_current_directory() {
    assert_eq!(run_args(&["-e"]).root, "/work");
    assert_eq!(run_args(&["/data"]).root, "/data");
}

#[test]
fn command_missing_current_directory_is_reported() {
    let r = CliCommand::parse_from_iter(Vec::new(), Err("gone".to_string()), Vec::new());
    assert_eq!(r, ParseStep::Done(Err(CliParseError::CurrentDir("gone".to_string()))));
}

#[test]
fn command_refusals_name_the_argument() {
    assert_eq!(parse(&["--bogus"]).unwrap_err(), CliParseError::UnknownOption("--bogus".to_string()));
    assert_eq!(parse(&["-"]).unwrap_err(), CliParseError::UnknownOption("-".to_string()));
    assert_eq!(parse(&["-t"]).unwrap_err(), CliParseError::MissingOptionValue("-t".to_string()));
    assert_eq!(parse(&["a", "b"]).unwrap_err(), CliParseError::TooManyArguments);
    assert_eq!(parse(&["-t", "0"]).unwrap_err(), CliParseError::InvalidThreadCount("0".to_string()));
    assert_eq!(parse(&["-t", "x1"]).unwrap_err(), CliParseError::InvalidThreadCount("x1".to_string()));
    assert_eq!(
        parse(&["--compress-level", "10"]).unwrap_err(),
        CliParseError::InvalidCompressionLevel("10".to_string())
    );
    assert_eq!(
        parse(&["--export-block-size", "0"]).unwrap_err(),
        CliParseError::InvalidExportBlockSize("0".to_string())
    );
}

#[test]
fn command_numbers_read_like_rust_literals() {
    assert_eq!(run_args(&["-t", "+7"]).thread_count, Some(7));
    assert_eq!(
        parse(&["/r", "--compress-level", "0"]).unwrap_err(),
        CliParseError::InvalidCompressionLevel("0".to_string())
    );
    assert_eq!(run_args(&["--compress-level", "1"]).export_compress_level, Some(1));
    assert_eq!(run_args(&["--compress-level", "09"]).export_compress_level, Some(9));
    assert!(parse(&["-t", "+"]).is_err());
    assert!(parse(&["-t", ""]).is_err());
    assert!(parse(&["-t", "99999999999999999999999"]).is_err());
}

#[test]
fn command_help_wins_over_errors_and_version() {
    assert!(matches!(parse(&["--bogus", "-h"]), Ok(CliCommand::Help)));
    assert!(matches!(parse(&["--version", "--help"]), Ok(CliCommand::Help)));
    assert!(matches!(parse(&["a", "b", "-v"]), Ok(CliCommand::Version)));
}

#[test]
fn command_asks_for_each_exclude_file_in_turn() {
    let first = CliCommand::parse_from_iter(strings(&["-X", "a", "--exclude", "z", "-X", "b"]), Ok("/w".to_string()), Vec::new());
    assert_eq!(first, ParseStep::NeedFile("a".to_string()));
    let second = CliCommand::parse_from_iter(
        strings(&["-X", "a", "--exclude", "z", "-X", "b"]),
        Ok("/w".to_string()),
        vec![Ok(" p1 \n\n#c\n".to_string())],
    );
    assert_eq!(second, ParseStep::NeedFile("b".to_string()));
    let r = parse_with(&["-X", "a", "--exclude", "z", "-X", "b"], &[("a", Ok(" p1 \n\n#c\n")), ("b", Ok("p2"))]);
    match r {
        Ok(CliCommand::Run(cli)) => assert_eq!(cli.exclude_patterns, vec!["p1", "z", "p2"]),
        other => panic!("expected run command, got {:?}", other),
    }
}

#[test]
fn command_unreadable_exclude_file_stops_reading() {
    let r = parse_with(&["-X", "a", "--bogus"], &[("a", Err("denied"))]);
    assert_eq!(r.unwrap_err(), CliParseError::ExcludeFile("a".to_string(), "denied".to_string()));
}

#[test]
fn command_texts_name_the_program() {
    assert_eq!(CliCommand::version_text(), "dar 0.1.0");
    assert!(CliCommand::help_text().contains("--exclude PATTERN"));
}

fn bare_cli() -> DaryaCli {
    DaryaCli {
        root: None,
        import_snapshot: None,
        export_json: None,
        export_binary: None,
        extended: false,
        no_extended: false,
        one_file_system: false,
        cross_file_system: false,
        follow_symlinks: false,
        no_follow_symlinks: false,
        include_caches: false,
        exclude_caches: false,
        include_kernfs: false,
        exclude_kernfs: false,
        thread_count: None,
        compress: false,
        compress_level: None,
        export_block_size: None,
        force_tui: false,
        force_progress: false,
        force_summary: false,
        ignore_config: false,
        exclude: Vec::new(),
        exclude_from: Vec::new(),
        si: false,
        disk_usage: false,
        apparent_size: false,
        show_hidden: false,
        hide_hidden: false,
        show_itemcount: false,
        hide_itemcount: false,
        show_mtime: false,
        hide_mtime: false,
        show_percent: false,
        hide_percent: false,
        no_graph: false,
    }
}

fn settle(cli: DaryaCli) -> CliArgs {
    let n = cli.exclude_from.len();
    cli.into_cli_args(Ok("/cwd".to_string()), vec![Ok(String::new()); n]).unwrap()
}

#[test]
fn preprocess_rewrites_interface_flags() {
    let out = DaryaCli::preprocess_interface_args(strings(&["-0", "-1", "-2", "-3", "--1", "x"]));
    assert_eq!(out, strings(&["--0", "--1", "--2", "-3", "--1", "x"]));
}

#[test]
fn into_cli_args_defaults() {
    let a = settle(bare_cli());
    assert_eq!(a.root, "/cwd");
    assert_eq!(a.interface_mode, InterfaceMode::Tui);
    assert_eq!(a.display_options, DisplayOptions::default());
    assert_eq!(a.same_fs_override, None);
    assert_eq!(a.cache_policy, None);
    assert!(!a.extended);
}

#[test]
fn into_cli_args_resolves_flag_pairs() {
    let mut c = bare_cli();
    c.root = Some("/r".to_string());
    c.extended = true;
    c.no_extended = true;
    c.one_file_system = true;
    c.cross_file_system = true;
    c.include_caches = true;
    c.exclude_kernfs = true;
    c.follow_symlinks = true;
    c.force_progress = true;
    c.si = true;
    c.disk_usage = true;
    c.apparent_size = true;
    c.show_hidden = true;
    c.hide_percent = true;
    c.no_graph = true;
    let a = settle(c);
    assert_eq!(a.root, "/r");
    assert!(!a.extended);
    assert_eq!(a.same_fs_override, Some(false));
    assert_eq!(a.cache_policy, Some(true));
    assert_eq!(a.kernfs_policy, Some(false));
    assert_eq!(a.follow_symlinks_override, Some(true));
    assert_eq!(a.interface_mode, InterfaceMode::Progress);
    assert!(a.display_options.use_si);
    assert!(!a.display_options.prefer_disk);
    assert!(a.display_options.show_hidden);
    assert!(!a.display_options.show_percent);
    assert!(!a.display_options.show_graph);
}

#[test]
fn into_cli_args_summary_wins() {
    let mut c = bare_cli();
    c.force_progress = true;
    c.force_summary = true;
    assert_eq!(settle(c).interface_mode, InterfaceMode::Summary);
}

#[test]
fn into_cli_args_reads_exclude_files_in_order() {
    let mut c = bare_cli();
    c.exclude = strings(&["*.o"]);
    c.exclude_from = strings(&["one", "two"]);
    let a = c
        .into_cli_args(Ok("/cwd".to_string()), vec![Ok("a\n  b  \n".to_string()), Ok("#x\nc".to_string())])
        .unwrap();
    assert_eq!(a.exclude_patterns, strings(&["*.o", "a", "b", "c"]));
}

#[test]
fn into_cli_args_errors_in_order() {
    let mut c = bare_cli();
    c.exclude_from = strings(&["one", "two"]);
    c.thread_count = Some(0);
    let e = c.clone().into_cli_args(Err("no cwd".to_string()), vec![Ok(String::new()), Ok(String::new())]);
    assert_eq!(e.unwrap_err(), ArgsError::CurrentDir("no cwd".to_string()));
    let e = c
        .clone()
        .into_cli_args(Ok("/".to_string()), vec![Ok(String::new()), Err("denied".to_string())]);
    assert_eq!(e.unwrap_err(), ArgsError::ExcludeFile("two".to_string(), "denied".to_string()));
    let e = c.clone().into_cli_args(Ok("/".to_string()), vec![Ok(String::new()), Ok(String::new())]);
    assert_eq!(e.unwrap_err(), ArgsError::InvalidThreadCount("0".to_string()));
    let mut c = bare_cli();
    c.compress_level = Some(12);
    c.export_block_size = Some(0);
    assert_eq!(
        c.clone().into_cli_args(Ok("/".to_string()), Vec::new()).unwrap_err(),
        ArgsError::InvalidCompressionLevel("12".to_string())
    );
    c.compress_level = Some(0);
    assert_eq!(
        c.clone().into_cli_args(Ok("/".to_string()), Vec::new()).unwrap_err(),
        ArgsError::InvalidCompressionLevel("0".to_string())
    );
    c.compress_level = Some(9);
    assert_eq!(
        c.into_cli_args(Ok("/".to_string()), Vec::new()).unwrap_err(),
        ArgsError::InvalidExportBlockSize("0".to_string())
    );
}

#[test]
fn into_cli_args_endpoints() {
    let mut c = bare_cli();
    c.import_snapshot = Some("-".to_string());
    c.export_json = Some("out.json".to_string());
    let a = settle(c);
    assert_eq!(a.import_snapshot, Some(SnapshotEndpoint::StdIo));
    assert_eq!(a.export_json, Some(SnapshotEndpoint::File("out.json".to_string())));
    assert_eq!(a.export_binary, None);
}

#[test]
fn patterns_skip_blank_lines_and_comments() {
    assert_eq!(patterns_from_text("a\r\n\n  # no\n\tb\t\n#c\nd"), strings(&["a", "b", "d"]));
    assert!(patterns_from_text("").is_empty());
    assert!(patterns_from_text("\n\n   \n").is_empty());
}

#[test]
fn launch_picks_the_mode() {
    let mut c = bare_cli();
    c.export_json = Some("x.json".to_string());
    c.force_summary = true;
    let a = settle(c.clone());
    assert_eq!(
        run_mode(&a),
        RunMode::Export { json: Some(SnapshotEndpoint::File("x.json".to_string())), binary: None }
    );
    c.import_snapshot = Some("-".to_string());
    assert_eq!(run_mode(&settle(c)), RunMode::Import(SnapshotEndpoint::StdIo));
    let mut c = bare_cli();
    c.force_summary = true;
    assert_eq!(run_mode(&settle(c)), RunMode::Interface(InterfaceMode::Summary));
}

fn config() -> ScanConfig {
    ScanConfig {
        follow_symlinks: true,
        max_depth: 0,
        exclude_patterns: strings(&["cfg"]),
        count_hard_links_once: true,
        one_file_system: true,
        exclude_caches: true,
        exclude_kernfs: false,
        thread_count: Some(4),
    }
}

#[test]
fn launch_scan_options_prefer_the_command_line() {
    let a = settle(bare_cli());
    let o = scan_options(&a, &config());
    assert!(o.follow_symlinks && o.count_hard_links_once && o.same_file_system && o.skip_caches);
    assert!(!o.skip_kernfs && !o.collect_metadata);
    let mut c = bare_cli();
    c.no_follow_symlinks = true;
    c.cross_file_system = true;
    c.include_caches = true;
    c.exclude_kernfs = true;
    c.extended = true;
    c.exclude = strings(&["cli"]);
    c.thread_count = Some(2);
    let a = settle(c);
    let o = scan_options(&a, &config());
    assert!(!o.follow_symlinks && !o.same_file_system && !o.skip_caches && o.skip_kernfs && o.collect_metadata);
    assert_eq!(exclude_patterns(&a, &config()), strings(&["cfg", "cli"]));
    assert_eq!(worker_threads(&a, &config()), Some(2));
    assert_eq!(worker_threads(&settle(bare_cli()), &config()), Some(4));
    let mut none = config();
    none.thread_count = Some(0);
    assert_eq!(worker_threads(&settle(bare_cli()), &none), None);
    none.thread_count = None;
    assert_eq!(worker_threads(&settle(bare_cli()), &none), None);
}

#[test]
fn launch_export_options() {
    let o = export_options_from_cli(&settle(bare_cli()));
    assert_eq!(o.format, SnapshotFormat::Json);
    assert!(!o.compress);
    assert_eq!(o.compress_level, 6);
    assert_eq!(o.block_size, 65536);
    let mut c = bare_cli();
    c.compress = true;
    c.compress_level = Some(3);
    c.export_block_size = Some(16384);
    let o = export_options_from_cli(&settle(c));
    assert!(o.compress);
    assert_eq!(o.compress_level, 3);
    assert_eq!(o.block_size, 16384);
}
