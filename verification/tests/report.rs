use dar::report::{error_line, export_plan, progress_line, summary_line, ReportStep, ScanReport};
use dar::scan::{ScanError, ScanEvent, ScanProgress};
use dar::snapshot::{ExportOptions, SnapshotEndpoint, SnapshotFormat};

#[test]
fn progress_and_summary_lines_name_the_counts() {
    let p = ScanProgress { scanned: 1204, errors: 3 };
    assert_eq!(progress_line(p), "progress: scanned 1204 errors 3");
    assert_eq!(summary_line(p), "summary: scanned 1204 errors 3");
    let zero = ScanProgress { scanned: 0, errors: 0 };
    assert_eq!(summary_line(zero), "summary: scanned 0 errors 0");
}

#[test]
fn error_line_names_path_and_reason() {
    let e = ScanError { path: "/srv/data".to_string(), message: "permission denied".to_string() };
    assert_eq!(error_line(&e), "scan error for /srv/data: permission denied");
}

#[test]
fn progress_mode_prints_each_progress() {
    let mut report = ScanReport::new(false);
    let step = report.on_event(&ScanEvent::Progress(ScanProgress { scanned: 5, errors: 1 }));
    assert_eq!(step, ReportStep::Print("progress: scanned 5 errors 1".to_string()));
    assert_eq!(report.last, ScanProgress { scanned: 0, errors: 0 });
    let step = report.on_event(&ScanEvent::Error(ScanError { path: "a".to_string(), message: "b".to_string() }));
    assert_eq!(step, ReportStep::PrintError("scan error for a: b".to_string()));
    assert_eq!(report.on_event(&ScanEvent::Completed), ReportStep::Stop);
}

#[test]
fn summary_mode_keeps_the_last_progress() {
    let mut report = ScanReport::new(true);
    assert_eq!(report.summary(), "summary: scanned 0 errors 0");
    assert_eq!(
        report.on_event(&ScanEvent::Progress(ScanProgress { scanned: 5, errors: 1 })),
        ReportStep::Continue
    );
    assert_eq!(
        report.on_event(&ScanEvent::Progress(ScanProgress { scanned: 9, errors: 2 })),
        ReportStep::Continue
    );
    assert_eq!(report.on_event(&ScanEvent::Completed), ReportStep::Stop);
    assert_eq!(report.summary(), "summary: scanned 9 errors 2");
}

#[test]
fn export_plan_writes_json_then_uncompressed_binary() {
    let options = ExportOptions { format: SnapshotFormat::Binary, compress: true, compress_level: 4, block_size: 1024 };
    let plan = export_plan(
        Some(SnapshotEndpoint::File("a.json".to_string())),
        Some(SnapshotEndpoint::StdIo),
        options,
    );
    assert_eq!(plan.len(), 2);
    assert_eq!(plan[0].0, SnapshotEndpoint::File("a.json".to_string()));
    assert_eq!(plan[0].1, ExportOptions { format: SnapshotFormat::Json, ..options });
    assert_eq!(plan[1].0, SnapshotEndpoint::StdIo);
    assert_eq!(
        plan[1].1,
        ExportOptions { format: SnapshotFormat::Binary, compress: false, compress_level: 4, block_size: 1024 }
    );
    assert!(export_plan(None, None, options).is_empty());
    let only_binary = export_plan(None, Some(SnapshotEndpoint::StdIo), options);
    assert_eq!(only_binary.len(), 1);
    assert_eq!(only_binary[0].1.format, SnapshotFormat::Binary);
}
