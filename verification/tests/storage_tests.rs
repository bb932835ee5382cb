use pi_kiosk::storage::{
    expired_entries, is_clip_file, is_expired, is_retained_file, is_snapshot_file, join_path_exec, list_backups,
    prune_order, select_clips, select_snapshots, ClipInfo, ClipManager,
};

#[test]
fn joining_paths() {
    assert_eq!(join_path_exec("/var/clips", "clip_1.h264"), "/var/clips/clip_1.h264");
    assert_eq!(join_path_exec("/var/clips/", "a"), "/var/clips/a");
    assert_eq!(join_path_exec("", "a"), "a");
    assert_eq!(join_path_exec("/var/clips", "/etc/passwd"), "/etc/passwd");
    assert_eq!(join_path_exec("d", ""), "d/");
    for (d, n) in [("/var/clips", "x.mp4"), ("rel", "a/b"), ("/", "c"), ("/a", "/b")] {
        assert_eq!(
            join_path_exec(d, n),
            std::path::Path::new(d).join(n).to_string_lossy().to_string()
        );
    }
}

#[test]
fn clip_paths() {
    let m = ClipManager::new("/nonexistent-clip-dir-for-tests", 7, 85);
    assert_eq!(m.max_retention_days, 7);
    assert_eq!(m.max_disk_usage_pct, 85);
    assert_eq!(m.clip_path("clip_1.h264"), None);
    let root = ClipManager::new("/", 7, 85);
    assert_eq!(root.clip_path("proc").as_deref(), Some("/proc"));
}

#[test]
fn found_clip_paths() {
    let m = ClipManager::new("/data/clips", 7, 85);
    assert_eq!(m.found_clip_path("clip_1.h264", true).as_deref(), Some("/data/clips/clip_1.h264"));
    assert_eq!(m.found_clip_path("clip_1.h264", false), None);
    assert_eq!(m.found_clip_path("/abs/x.mp4", true).as_deref(), Some("/abs/x.mp4"));
}

#[test]
fn file_kinds() {
    assert!(is_clip_file("clip_20240101_101010.h264"));
    assert!(is_clip_file("clip_x.mp4"));
    assert!(!is_clip_file("clip_x.jpg"));
    assert!(!is_clip_file("snap_x.mp4"));
    assert!(is_snapshot_file("snap_20240101_101010.jpg"));
    assert!(!is_snapshot_file("snap_x.png"));
    assert!(is_retained_file("clip_anything"));
    assert!(is_retained_file("snap_anything"));
    assert!(!is_retained_file("kiosk.db"));
}

fn info(name: &str, ts: i64) -> ClipInfo {
    ClipInfo { filename: name.to_string(), size_bytes: 10, timestamp: ts }
}

#[test]
fn listings_newest_first() {
    let files = vec![
        info("clip_a.h264", 100),
        info("snap_a.jpg", 150),
        info("clip_b.mp4", 300),
        info("notes.txt", 500),
        info("clip_c.h264", 200),
    ];
    let clips: Vec<String> = select_clips(files).into_iter().map(|c| c.filename).collect();
    assert_eq!(clips, vec!["clip_b.mp4", "clip_c.h264", "clip_a.h264"]);
    let snaps = select_snapshots(vec![info("snap_1.jpg", 1), info("snap_2.jpg", 2), info("clip_x.mp4", 3)]);
    let names: Vec<&str> = snaps.iter().map(|c| c.filename.as_str()).collect();
    assert_eq!(names, vec!["snap_2.jpg", "snap_1.jpg"]);
}

#[test]
fn expiry() {
    let day: i64 = 86_400;
    let now_secs: i64 = 1_700_000_000;
    let now = now_secs * 1_000_000_000 + 500_000_000;
    assert!(is_expired(Some(now_secs - 8 * day), now, 7));
    assert!(!is_expired(Some(now_secs - 6 * day), now, 7));
    // Exactly at the cut-off second, the cut-off's fraction makes it older.
    assert!(is_expired(Some(now_secs - 7 * day), now, 7));
    assert!(!is_expired(Some(now_secs - 7 * day), now_secs * 1_000_000_000, 7));
    assert!(!is_expired(None, now, 0));
    assert!(is_expired(Some(now_secs - 1), now, 0));
}

#[test]
fn prune_oldest_first() {
    assert_eq!(prune_order(&vec![30, 10, 20, 10]), vec![1, 3, 2, 0]);
    assert_eq!(prune_order(&vec![]), Vec::<usize>::new());
    assert_eq!(prune_order(&vec![-5, 5]), vec![0, 1]);
}

#[test]
fn backups() {
    let names = vec![
        "kiosk-backup-20240101-000000.db".to_string(),
        "notes.txt".to_string(),
        "kiosk-backup-20240301-000000.db".to_string(),
        "kiosk-backup-20240201-000000.db".to_string(),
    ];
    assert_eq!(
        list_backups(&names),
        vec![
            "kiosk-backup-20240301-000000.db".to_string(),
            "kiosk-backup-20240201-000000.db".to_string(),
            "kiosk-backup-20240101-000000.db".to_string(),
        ]
    );
}

#[test]
fn expired_listing_entries() {
    let day_ns: i64 = 86_400_000_000_000;
    let now = 100 * day_ns;
    let names: Vec<String> = ["clip_a.h264", "notes.txt", "snap_b.jpg", "clip_c.mp4", "snap_d.jpg"]
        .iter().map(|s| s.to_string()).collect();
    // Last changed (seconds since the epoch): day 10, second 1, day 50, unknown, day 95.
    let modified = vec![Some(10 * 86_400), Some(1), Some(50 * 86_400), None, Some(95 * 86_400)];
    assert_eq!(expired_entries(&names, &modified, now, 7), vec![0, 2]);
    assert_eq!(expired_entries(&names, &modified, now, 60), vec![0]);
    assert!(expired_entries(&vec![], &vec![], now, 7).is_empty());
}

#[test]
fn delete_targets() {
    let m = ClipManager::new("/nonexistent-clip-dir-for-tests", 7, 85);
    assert_eq!(m.delete_target("clip_1.h264"), Err("clip not found: clip_1.h264".to_string()));
    let root = ClipManager::new("/", 7, 85);
    assert_eq!(root.delete_target("proc").as_deref(), Ok("/proc"));
    assert_eq!(ClipManager::not_found_message("x"), "clip not found: x");
}
