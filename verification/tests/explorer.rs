use std::cmp::Ordering;
use sysmon::explorer::{size_order, str_eq_ignore_ascii_case, FastScanControl, DiskSample, DisksPanel, EntryInfo, ExplorerPanel, ScanMsg};
use sysmon::mft_scan::{build_tree, run_scan};
use sysmon::paths::{FsPath, PathPart};

fn path(parts: &[&str]) -> FsPath {
    let mut v = vec![PathPart::Prefix("C:".to_string()), PathPart::Root];
    for p in parts {
        v.push(PathPart::Normal(p.to_string()));
    }
    FsPath { parts: v }
}

fn file(parts: &[&str], size: u64) -> EntryInfo {
    EntryInfo { name: parts.last().unwrap().to_string(), path: path(parts), size, is_dir: false }
}

fn dir(parts: &[&str]) -> EntryInfo {
    EntryInfo { name: parts.last().unwrap().to_string(), path: path(parts), size: 0, is_dir: true }
}

fn disk(fs: &str, removable: bool, total: u64, available: u64) -> DiskSample {
    DiskSample {
        mount: path(&[]),
        label: "C:\\".to_string(),
        total_space: total,
        available_space: available,
        removable,
        file_system: fs.to_string(),
    }
}

fn sizes(entries: &[EntryInfo]) -> Vec<(String, u64)> {
    entries.iter().map(|e| (e.name.clone(), e.size)).collect()
}

#[test]
fn drives_report_used_space_and_fast_scan() {
    let mut ex = ExplorerPanel::new();
    ex.set_drives(&[disk("NTFS", false, 100, 30), disk("ntfs", true, 10, 20), disk("ext4", false, 5, 5)]);
    let v: Vec<(u64, u64, bool)> = ex.roots.iter().map(|d| (d.used, d.total, d.fast_scan_ok)).collect();
    assert_eq!(v, vec![(70, 100, true), (0, 10, false), (0, 5, false)]);
    assert_eq!(ex.roots[0].label, "C:\\");
}

#[test]
fn ascii_case_comparison() {
    assert!(str_eq_ignore_ascii_case("NtFs", "ntfs"));
    assert!(!str_eq_ignore_ascii_case("ntfs ", "ntfs"));
    assert!(!str_eq_ignore_ascii_case("ntfz", "ntfs"));
}

#[test]
fn live_walk_collects_and_sorts_entries() {
    let mut ex = ExplorerPanel::new();
    assert!(ex.navigate(Some(path(&["Users"]))));
    assert!(ex.loading);
    assert!(ex.walk_message(ScanMsg::Entry(file(&["Users", "a"], 5))));
    assert!(ex.walk_message(ScanMsg::Entry(file(&["Users", "b"], 9))));
    assert!(ex.walk_message(ScanMsg::Entry(file(&["Users", "c"], 5))));
    ex.sort_entries();
    assert_eq!(sizes(&ex.entries), vec![("b".to_string(), 9), ("a".to_string(), 5), ("c".to_string(), 5)]);
    assert_eq!(ex.dir_total, 19);
    assert!(!ex.walk_message(ScanMsg::Error("Can't read".to_string())));
    assert_eq!(ex.error.as_deref(), Some("Can't read"));
    assert!(!ex.loading);
    assert!(!ex.walk_message(ScanMsg::Done));
    // Back to the drive list.
    assert!(!ex.navigate(None));
    assert!(ex.entries.is_empty());
    assert!(ex.error.is_none());
    assert!(ex.current_dir.is_none());
}

#[test]
fn drained_walk_messages_fold_into_the_listing() {
    let mut ex = ExplorerPanel::new();
    assert!(ex.navigate(Some(path(&["Users"]))));
    ex.drain_walk(
        vec![
            ScanMsg::Entry(file(&["Users", "a"], 5)),
            ScanMsg::Entry(file(&["Users", "b"], 9)),
            ScanMsg::Error("first".to_string()),
            ScanMsg::Entry(file(&["Users", "c"], 5)),
            ScanMsg::Error("second".to_string()),
        ],
        false,
    );
    assert_eq!(sizes(&ex.entries), vec![("b".to_string(), 9), ("a".to_string(), 5), ("c".to_string(), 5)]);
    assert_eq!(ex.dir_total, 19);
    assert_eq!(ex.error.as_deref(), Some("second"));
    assert!(!ex.loading);
    // Later entries join the sorted listing.
    ex.drain_walk(vec![ScanMsg::Entry(file(&["Users", "d"], 7))], false);
    assert_eq!(
        sizes(&ex.entries),
        vec![("b".to_string(), 9), ("d".to_string(), 7), ("a".to_string(), 5), ("c".to_string(), 5)]
    );
    assert_eq!(ex.dir_total, 26);
}

#[test]
fn drained_walk_keeps_loading_until_done_or_closed() {
    let mut ex = ExplorerPanel::new();
    assert!(ex.navigate(Some(path(&["x"]))));
    ex.drain_walk(vec![ScanMsg::Entry(file(&["x", "a"], 1))], false);
    assert!(ex.loading);
    ex.drain_walk(Vec::new(), false);
    assert!(ex.loading);
    assert_eq!(ex.dir_total, 1);
    ex.drain_walk(Vec::new(), true);
    assert!(!ex.loading);
    assert!(ex.error.is_none());
    let mut done = ExplorerPanel::new();
    assert!(done.navigate(Some(path(&["x"]))));
    done.drain_walk(vec![ScanMsg::Done], false);
    assert!(!done.loading);
    assert!(done.entries.is_empty());
}

#[test]
fn size_order_puts_bigger_first() {
    assert_eq!(size_order(&file(&["a"], 9), &file(&["b"], 5)), Ordering::Less);
    assert_eq!(size_order(&file(&["a"], 5), &file(&["b"], 5)), Ordering::Equal);
    assert_eq!(size_order(&file(&["a"], 1), &file(&["b"], 5)), Ordering::Greater);
}

#[test]
fn walk_closed_stops_loading() {
    let mut ex = ExplorerPanel::new();
    ex.navigate(Some(path(&["x"])));
    ex.walk_lost();
    assert!(!ex.loading);
}

fn sample_records() -> Vec<EntryInfo> {
    vec![
        dir(&["Users"]),
        dir(&["Users", "me"]),
        file(&["Users", "me", "a.bin"], 100),
        file(&["Users", "me", "b.bin"], 300),
        file(&["Users", "c.txt"], 50),
        file(&["pagefile.sys"], 1000),
        file(&["empty.txt"], 0),
        dir(&["Windows"]),
    ]
}

#[test]
fn scan_tree_sizes_folders_and_sorts_listings() {
    let tree = build_tree(path(&[]), sample_records());
    assert_eq!(tree.total_of(&path(&[])), 1450);
    assert_eq!(tree.total_of(&path(&["Users"])), 450);
    assert_eq!(tree.total_of(&path(&["Users", "me"])), 400);
    assert_eq!(tree.total_of(&path(&["Windows"])), 0);
    assert_eq!(
        sizes(&tree.children_of(&path(&[]))),
        vec![
            ("pagefile.sys".to_string(), 1000),
            ("Users".to_string(), 450),
            ("empty.txt".to_string(), 0),
            ("Windows".to_string(), 0),
        ]
    );
    assert_eq!(
        sizes(&tree.children_of(&path(&["Users"]))),
        vec![("me".to_string(), 400), ("c.txt".to_string(), 50)]
    );
    assert!(tree.children_of(&path(&["Nowhere"])).is_empty());
}

#[test]
fn scan_tree_totals_only_folders_with_files_beneath() {
    let tree = build_tree(path(&[]), sample_records());
    assert_eq!(tree.total_entry(&path(&[])), Some(1450));
    assert_eq!(tree.total_entry(&path(&["Users"])), Some(450));
    assert_eq!(tree.total_entry(&path(&["Users", "me"])), Some(400));
    assert_eq!(tree.total_entry(&path(&["Windows"])), None);
    assert_eq!(tree.total_entry(&path(&["Nowhere"])), None);
}

#[test]
fn fast_scan_serves_navigation_from_memory() {
    let mut ex = ExplorerPanel::new();
    ex.navigate(Some(path(&["Users"])));
    ex.start_fast_scan();
    assert!(ex.scanning);
    assert!(ex.tree.is_none());
    let walk = ex.scan_finished(run_scan(path(&[]), Ok(sample_records())));
    assert!(!walk);
    assert!(!ex.scanning);
    assert!(ex.viewing_tree);
    assert_eq!(ex.dir_total, 450);
    assert_eq!(sizes(&ex.entries), vec![("me".to_string(), 400), ("c.txt".to_string(), 50)]);
    // A folder outside the scanned drive still needs a live walk.
    let other = FsPath { parts: vec![PathPart::Prefix("D:".to_string()), PathPart::Root] };
    assert!(ex.navigate(Some(other)));
    assert!(!ex.viewing_tree);
}

#[test]
fn failed_fast_scan_shows_its_error() {
    let mut ex = ExplorerPanel::new();
    ex.start_fast_scan();
    let walk = ex.scan_finished(run_scan(path(&[]), Err("MFT fast scan is only available on Windows".to_string())));
    assert!(!walk);
    assert_eq!(ex.error.as_deref(), Some("MFT fast scan is only available on Windows"));
    assert!(ex.tree.is_none());
    ex.start_fast_scan();
    ex.scan_lost();
    assert!(!ex.scanning);
}

#[test]
fn disks_panel_reports_usage() {
    let mut p = DisksPanel::new();
    p.refresh(&[disk("NTFS", false, 100, 30), disk("ntfs", true, 10, 20)]);
    let v: Vec<(String, u64, u64)> = p.disks.iter().map(|d| (d.name.clone(), d.used, d.total)).collect();
    assert_eq!(v, vec![("C:\\".to_string(), 70, 100), ("C:\\".to_string(), 0, 10)]);
}

#[test]
fn paths_parent_and_prefix() {
    let p = path(&["a", "b"]);
    assert_eq!(p.parent().unwrap().parts.len(), 3);
    assert!(path(&[]).parent().is_none());
    assert!(p.starts_with(&path(&["a"])));
    assert!(!path(&["a"]).starts_with(&p));
    assert!(p.same(&path(&["a", "b"])));
    assert!(!p.same(&path(&["a", "c"])));
}

#[test]
fn fast_scan_control_choices() {
    let mut ex = ExplorerPanel::new();
    ex.set_drives(&[disk("NTFS", false, 100, 30), disk("FAT32", false, 100, 30)]);
    let ntfs = &ex.roots[0];
    assert_eq!(ex.fast_scan_control(&ex.roots[1], true), FastScanControl::Unavailable);
    assert_eq!(ex.fast_scan_control(ntfs, false), FastScanControl::NeedsAdmin);
    assert_eq!(ex.fast_scan_control(ntfs, true), FastScanControl::Scan { rescan: false });
    assert_eq!(ntfs.free(), 30);
    let mut ex2 = ExplorerPanel::new();
    ex2.set_drives(&[disk("NTFS", false, 100, 30)]);
    ex2.start_fast_scan();
    assert_eq!(ex2.fast_scan_control(&ex2.roots[0], true), FastScanControl::Scanning);
    ex2.scan_finished(run_scan(path(&[]), Ok(sample_records())));
    assert_eq!(ex2.fast_scan_control(&ex2.roots[0], true), FastScanControl::Scan { rescan: true });
    assert_eq!(ex2.size_heading(), "Size on disk");
    ex2.navigate(Some(path(&[])));
    assert_eq!(ex2.size_heading(), "Size (MFT)");
    assert_eq!(ex2.share_base(), 1450);
    ex2.navigate(Some(path(&["Windows"])));
    assert_eq!(ex2.share_base(), 1);
}
