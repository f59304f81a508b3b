use dar::glob::build_excludes;
use dar::metadata::{disk_usage_bytes, DeviceId, HardLinkKey};
use dar::scan::{ScanEvent, ScanOptions};
use dar::scan_handle::ScannerHandle;
use dar::tree::NodeType;
use dar::walk::{
    walk_same_file_system, EntryMetadata, MetadataFailure, ScanWalker, WalkEntry, WalkItem, SCAN_BATCH_SIZE,
};
use std::sync::atomic::AtomicBool;
use std::sync::Arc;

fn options() -> ScanOptions {
    ScanOptions {
        follow_symlinks: false,
        count_hard_links_once: true,
        same_file_system: true,
        skip_caches: true,
        skip_kernfs: false,
        collect_metadata: false,
    }
}

fn meta(len: u64, device: u64, inode: u64) -> EntryMetadata {
    EntryMetadata {
        len,
        blocks: Some(8),
        device: Some(device),
        inode: Some(inode),
        modified: None,
        permissions: Some(0o644),
        uid: Some(1),
        gid: Some(1),
    }
}

fn file(path: &str, depth: usize, md: EntryMetadata) -> WalkItem {
    WalkItem::Entry(WalkEntry {
        path: path.to_string(),
        depth,
        is_dir: false,
        is_symlink: false,
        is_file: true,
        metadata: Ok(md),
    })
}

fn dir(path: &str, depth: usize, device: u64) -> WalkItem {
    WalkItem::Entry(WalkEntry {
        path: path.to_string(),
        depth,
        is_dir: true,
        is_symlink: false,
        is_file: false,
        metadata: Ok(meta(4096, device, depth as u64 + 1000)),
    })
}

fn walker(patterns: &[&str]) -> ScanWalker {
    let patterns: Vec<String> = patterns.iter().map(|p| p.to_string()).collect();
    ScanWalker::new("/root".to_string(), options(), &patterns, true, Some(7))
}

fn batches(events: &[ScanEvent]) -> Vec<String> {
    let mut paths = Vec::new();
    for e in events {
        if let ScanEvent::Batch(b) = e {
            for n in &b.nodes {
                paths.push(n.path.clone());
            }
        }
    }
    paths
}

#[test]
fn walker_reports_entries_when_finished() {
    let mut w = walker(&[]);
    assert!(w.step(false, dir("/root", 0, 7)).events.is_empty());
    assert!(w.step(false, file("/root/a", 1, meta(10, 7, 1))).events.is_empty());
    let end = w.finish();
    assert_eq!(batches(&end), vec!["/root", "/root/a"]);
    assert!(matches!(end.last(), Some(ScanEvent::Completed)));
    match &end[0] {
        ScanEvent::Batch(b) => {
            let p = b.progress.unwrap();
            assert_eq!((p.scanned, p.errors), (2, 0));
            assert_eq!(b.nodes[1].size, 10);
            assert_eq!(b.nodes[1].disk_size, 8 * 512);
            assert_eq!(b.nodes[1].permissions, None);
            assert_eq!(b.nodes[0].kind, NodeType::Directory);
        }
        other => panic!("expected a batch, got {:?}", other),
    }
    match &end[1] {
        ScanEvent::Activity(a) => {
            assert!(a.current_path.is_none());
            assert_eq!(a.files_processed, 1);
        }
        other => panic!("expected activity, got {:?}", other),
    }
}

#[test]
fn walker_counts_hard_links_once() {
    let mut w = walker(&[]);
    w.step(false, file("/root/a", 1, meta(10, 7, 42)));
    w.step(false, file("/root/b", 1, meta(10, 7, 42)));
    w.step(false, file("/root/c", 1, meta(10, 7, 43)));
    let end = w.finish();
    match &end[0] {
        ScanEvent::Batch(b) => {
            let sizes: Vec<u64> = b.nodes.iter().map(|n| n.size).collect();
            assert_eq!(sizes, vec![10, 0, 10]);
        }
        other => panic!("expected a batch, got {:?}", other),
    }
}

#[test]
fn walker_skips_other_devices() {
    let mut w = walker(&[]);
    let out = w.step(false, dir("/root/mnt", 1, 9));
    assert!(out.skip_current_dir);
    assert!(matches!(&out.events[..], [ScanEvent::Activity(a)] if a.skipped_mounts == 1));
    assert!(w.batch.is_empty());
}

#[test]
fn walker_compares_devices_only_on_unix() {
    let w = ScanWalker::new("/r".to_string(), options(), &Vec::new(), false, Some(7));
    assert_eq!(w.root_device, None);
    assert!(walk_same_file_system(options(), false));
    assert!(!walk_same_file_system(options(), true));
}

#[test]
fn walker_filters_excluded_and_cache_paths() {
    let mut w = walker(&["*.tmp"]);
    assert!(w.excludes.is_some());
    assert!(w.step(false, file("/root/x.tmp", 1, meta(1, 7, 1))).events.is_empty());
    assert!(w.step(false, file("/root/Cache/y", 2, meta(1, 7, 2))).events.is_empty());
    assert!(w.step(false, file("/root/kernfs/z", 2, meta(1, 7, 3))).events.is_empty());
    assert_eq!(w.scanned, 3);
    assert_eq!(w.batch.len(), 1);
    assert_eq!(w.batch[0].path, "/root/kernfs/z");
}

#[test]
fn walker_tracks_open_directories() {
    let mut w = walker(&[]);
    w.step(false, dir("/root", 0, 7));
    w.step(false, dir("/root/a", 1, 7));
    w.step(false, dir("/root/a/b", 2, 7));
    assert_eq!(w.activity.queued_directories, 2);
    w.step(false, file("/root/c", 1, meta(1, 7, 5)));
    assert_eq!(w.dir_stack, vec![0]);
    assert_eq!(w.activity.queued_directories, 0);
}

#[test]
fn walker_sends_full_batches() {
    let mut w = walker(&[]);
    let mut sent = Vec::new();
    for i in 0..SCAN_BATCH_SIZE {
        let out = w.step(false, file(&format!("/root/f{i}"), 1, meta(1, 7, i as u64)));
        sent.extend(out.events);
    }
    assert_eq!(batches(&sent).len(), SCAN_BATCH_SIZE);
    assert!(w.batch.is_empty());
}

#[test]
fn walker_reports_errors_after_waiting_entries() {
    let mut w = walker(&[]);
    w.step(false, file("/root/a", 1, meta(1, 7, 1)));
    let out = w.step(
        false,
        WalkItem::Entry(WalkEntry {
            path: "/root/locked".to_string(),
            depth: 1,
            is_dir: true,
            is_symlink: false,
            is_file: false,
            metadata: Err(MetadataFailure { permission_denied: true, message: "denied".to_string() }),
        }),
    );
    assert_eq!(out.events.len(), 2);
    assert_eq!(batches(&out.events), vec!["/root/a"]);
    assert!(matches!(&out.events[1], ScanEvent::Error(e) if e.path == "/root/locked" && e.message == "denied"));
    assert_eq!(w.activity.permission_denied, 1);
    assert_eq!(w.errors, 1);
    let out = w.step(false, WalkItem::Failure { path: None, message: "loop".to_string() });
    assert!(matches!(&out.events[..], [ScanEvent::Error(e)] if e.path == "/root"));
    assert_eq!(w.errors, 2);
    assert_eq!(w.scanned, 2);
}

#[test]
fn walker_stops_when_cancelled() {
    let mut w = walker(&[]);
    let out = w.step(true, file("/root/a", 1, meta(1, 7, 1)));
    assert!(out.stop);
    assert!(matches!(&out.events[..], [ScanEvent::Completed]));
    assert_eq!(w.scanned, 0);
}

#[test]
fn excludes_need_patterns_that_parse() {
    assert!(build_excludes(&Vec::new()).is_none());
    let set = build_excludes(&vec!["[".to_string(), "*.log".to_string()]).unwrap();
    assert!(set.is_match("/var/x.log"));
    assert!(!set.is_match("/var/x.txt"));
}

#[test]
fn hard_link_keys_and_disk_usage() {
    let a = HardLinkKey::new(DeviceId(1), 2);
    let b = HardLinkKey::new(DeviceId(2), 1);
    assert_ne!(a.code(), b.code());
    assert_eq!(a.code(), (1u128 << 64) + 2);
    assert_eq!(disk_usage_bytes(100, Some(3)), 1536);
    assert_eq!(disk_usage_bytes(100, None), 100);
    assert_eq!(disk_usage_bytes(0, Some(u64::MAX)), u64::MAX);
}

#[test]
fn scanner_handle_shares_its_flag() {
    let handle = ScannerHandle::new(Arc::new(AtomicBool::new(false)));
    let copy = handle.clone();
    assert!(!copy.is_cancelled());
    handle.cancel();
    assert!(copy.is_cancelled());
}

#[test]
fn total_size_adds_file_sizes() {
    assert_eq!(dar::walk::total_size(&vec![8, 4]), Some(12));
    assert_eq!(dar::walk::total_size(&Vec::new()), Some(0));
}

#[test]
fn total_size_that_overflows_is_none() {
    assert_eq!(dar::walk::total_size(&vec![u64::MAX, 1]), None);
    assert_eq!(dar::walk::total_size(&vec![u64::MAX, 0]), Some(u64::MAX));
}
