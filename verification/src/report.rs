//! What a run without the interface does: the progress and summary modes
//! print a line per progress event, or only the last progress once the
//! scan completes, and a line per scan error; the export mode writes the
//! finished tree to each destination it was given.
use crate::scan::{ScanError, ScanEvent, ScanProgress};
use crate::snapshot::{ExportOptions, SnapshotEndpoint, SnapshotFormat};
use crate::text::{decimal, push_str, u64_to_string};
use vstd::prelude::*;

verus! {

/// `prefix`, the entries scanned, " errors " and the errors met.
pub open spec fn counts_text(prefix: Seq<char>, p: ScanProgress) -> Seq<char> {
    prefix + decimal(p.scanned as nat) + " errors "@ + decimal(p.errors as nat)
}

/// The line printed for a progress event.
pub open spec fn progress_text(p: ScanProgress) -> Seq<char> {
    counts_text("progress: scanned "@, p)
}

/// The line printed once a scan in summary mode is over.
pub open spec fn summary_text(p: ScanProgress) -> Seq<char> {
    counts_text("summary: scanned "@, p)
}

/// The line printed (to the error stream) for a scan error.
pub open spec fn error_text(e: ScanError) -> Seq<char> {
    "scan error for "@ + e.path@ + ": "@ + e.message@
}

fn counts_line(prefix: &str, p: ScanProgress) -> (r: String)
    ensures
        r@ == counts_text(prefix@, p),
{
    let mut out = String::new();
    push_str(&mut out, prefix);
    let scanned = u64_to_string(p.scanned);
    push_str(&mut out, scanned.as_str());
    push_str(&mut out, " errors ");
    let errors = u64_to_string(p.errors);
    push_str(&mut out, errors.as_str());
    assert(out@ =~= counts_text(prefix@, p));
    out
}

pub fn progress_line(p: ScanProgress) -> (r: String)
    ensures
        r@ == progress_text(p),
{
    counts_line("progress: scanned ", p)
}

pub fn summary_line(p: ScanProgress) -> (r: String)
    ensures
        r@ == summary_text(p),
{
    counts_line("summary: scanned ", p)
}

pub fn error_line(e: &ScanError) -> (r: String)
    ensures
        r@ == error_text(*e),
{
    let mut out = String::new();
    push_str(&mut out, "scan error for ");
    push_str(&mut out, e.path.as_str());
    push_str(&mut out, ": ");
    push_str(&mut out, e.message.as_str());
    assert(out@ =~= error_text(*e));
    out
}

/// What to do after one scan event.
#[derive(Debug, PartialEq, Eq)]
pub enum ReportStep {
    /// Print the line to standard output and go on.
    Print(String),
    /// Print the line to the error stream and go on.
    PrintError(String),
    /// The scan is over.
    Stop,
    /// Nothing to print; go on.
    Continue,
}

/// A headless scan's report: in summary mode only the last progress is
/// kept, else every progress event is printed.
#[derive(Debug)]
pub struct ScanReport {
    pub summary_only: bool,
    pub last: ScanProgress,
}

impl ScanReport {
    /// A report with no progress yet.
    pub fn new(summary_only: bool) -> (r: ScanReport)
        ensures
            r.summary_only == summary_only,
            r.last == (ScanProgress { scanned: 0, errors: 0 }),
    {
        ScanReport { summary_only, last: ScanProgress { scanned: 0, errors: 0 } }
    }

    /// Takes one scan event: a progress event is printed, or in summary mode
    /// kept; an error is printed to the error stream; completion stops the
    /// run; anything else is passed over.
    pub fn on_event(&mut self, event: &ScanEvent) -> (r: ReportStep)
        ensures
            final(self).summary_only == old(self).summary_only,
            match *event {
                ScanEvent::Progress(p) => if old(self).summary_only {
                    r == ReportStep::Continue && final(self).last == p
                } else {
                    r matches ReportStep::Print(line) && line@ == progress_text(p) && final(self).last == old(self).last
                },
                ScanEvent::Error(e) => r matches ReportStep::PrintError(line) && line@ == error_text(e)
                    && final(self).last == old(self).last,
                ScanEvent::Completed => r == ReportStep::Stop && final(self).last == old(self).last,
                _ => r == ReportStep::Continue && final(self).last == old(self).last,
            },
    {
        match event {
            ScanEvent::Progress(p) => {
                if self.summary_only {
                    self.last = *p;
                    ReportStep::Continue
                } else {
                    ReportStep::Print(progress_line(*p))
                }
            },
            ScanEvent::Error(e) => ReportStep::PrintError(error_line(e)),
            ScanEvent::Completed => ReportStep::Stop,
            _ => ReportStep::Continue,
        }
    }

    /// The summary line for the last progress kept.
    pub fn summary(&self) -> (r: String)
        ensures
            r@ == summary_text(self.last),
    {
        summary_line(self.last)
    }
}

/// The writes of the export mode, in order: the JSON destination, if any,
/// with the options in JSON form, then the binary destination, if any, in
/// binary form and uncompressed.
pub open spec fn spec_export_plan(
    json: Option<SnapshotEndpoint>,
    binary: Option<SnapshotEndpoint>,
    options: ExportOptions,
) -> Seq<(SnapshotEndpoint, ExportOptions)> {
    let first = match json {
        Some(dest) => seq![(dest, ExportOptions { format: SnapshotFormat::Json, ..options })],
        None => seq![],
    };
    let second = match binary {
        Some(dest) => seq![(dest, ExportOptions { format: SnapshotFormat::Binary, compress: false, ..options })],
        None => seq![],
    };
    first + second
}

pub fn export_plan(
    json: Option<SnapshotEndpoint>,
    binary: Option<SnapshotEndpoint>,
    options: ExportOptions,
) -> (r: Vec<(SnapshotEndpoint, ExportOptions)>)
    ensures
        r@ == spec_export_plan(json, binary, options),
{
    let mut plan: Vec<(SnapshotEndpoint, ExportOptions)> = Vec::new();
    if let Some(dest) = json {
        plan.push((dest, ExportOptions { format: SnapshotFormat::Json, ..options }));
    }
    if let Some(dest) = binary {
        plan.push((dest, ExportOptions { format: SnapshotFormat::Binary, compress: false, ..options }));
    }
    assert(plan@ =~= spec_export_plan(json, binary, options));
    plan
}

} // verus!
