use dupdupninja::browse::{
    action_bar_state, display_name, join_path, link_paths, FileSelection, metadata_rows, metadata_value, snapshot_label, CompareRow, FileRow,
    MetadataField, RowItem,
};
use dupdupninja::error::Error;
use dupdupninja::exact::ExactKey;
use dupdupninja::interface::{
    blank_fileset_metadata, default_scan_options, ffi_abi_major, ffi_version, hash_to_hex_opt, listing_page,
    prescan_totals, scan_config_from_options, snapshot_info, with_user_texts, DupdupCancelToken, DupdupScanOptions,
    DupdupStatus,
};
use dupdupninja::jobs::{
    exact_key_text, group_matches, job_seconds, matches_page, scan_request, InnerState, JobStatus, JobUpdate,
};
use dupdupninja::models::{FileListRow, FileSnapshotRecord, MediaFileRecord, ScanRootKind};
use dupdupninja::scan::{ScanCancelToken, ScanProgress, ScanTotals};
use dupdupninja::tools::{os_pretty_name, probe_output, scale_filter};

fn listed(id: i64, path: &str, blake3: Option<[u8; 32]>) -> FileListRow {
    FileListRow {
        id,
        path: path.to_string(),
        size_bytes: 1,
        blake3,
        sha256: None,
        ahash: None,
        dhash: None,
        phash: None,
        file_type: None,
    }
}

#[test]
fn job_table_ids_and_updates() {
    let mut s = InnerState::new();
    let a = s.add_job("/r1".to_string(), "/d1".to_string(), ScanCancelToken::new(), 1000);
    let b = s.add_job("/r2".to_string(), "/d2".to_string(), ScanCancelToken::new(), 2000);
    assert_eq!((a, b, s.next_id), (1, 2, 3));
    assert_eq!(s.jobs[0].status, JobStatus::Pending);
    s.update_job(a, JobUpdate::Started(1500));
    assert_eq!(s.jobs[0].status, JobStatus::Running);
    assert_eq!(s.jobs[0].started_at_ms, 1500);
    s.update_job(a, JobUpdate::Progress(ScanProgress {
        files_seen: 2,
        files_hashed: 1,
        files_skipped: 0,
        bytes_seen: 9,
        total_files: 5,
        total_bytes: 50,
        current_path: "/r1/x".to_string(),
    }));
    assert_eq!(s.jobs[0].progress.as_ref().unwrap().files_seen, 2);
    s.update_job(b, JobUpdate::Failed("Failed to open DB: boom".to_string(), 2500));
    assert_eq!(s.jobs[1].status, JobStatus::Failed);
    assert_eq!(s.jobs[1].error, Some("Failed to open DB: boom".to_string()));
    assert_eq!(s.jobs[1].finished_at_ms, Some(2500));
    s.update_job(99, JobUpdate::Completed(3000));
    assert_eq!(s.jobs.len(), 2);
    assert_eq!(s.db_path_of(b), Some("/d2".to_string()));
    assert_eq!(s.db_path_of(7), None);
    assert_eq!(JobStatus::Cancelled.name(), "cancelled");
}

#[test]
fn only_running_jobs_are_cancelled() {
    let mut s = InnerState::new();
    let token = ScanCancelToken::new();
    let a = s.add_job("/r".to_string(), "/d".to_string(), token.clone(), 0);
    assert!(!s.cancel_job(a));
    assert!(!token.is_cancelled());
    s.update_job(a, JobUpdate::Started(1));
    assert!(s.cancel_job(a));
    assert!(token.is_cancelled());
    assert!(!s.cancel_job(42));
}

#[test]
fn job_table_keeps_the_newest_fifty() {
    let mut s = InnerState::new();
    for i in 0..60u64 {
        s.add_job(format!("/r{i}"), format!("/d{i}"), ScanCancelToken::new(), i);
    }
    assert_eq!(s.jobs.len(), 60);
    s.update_job(60, JobUpdate::Completed(100));
    assert_eq!(s.jobs.len(), 50);
    assert_eq!(s.jobs[0].id, 11);
    assert_eq!(s.jobs[49].id, 60);
    assert_eq!(s.jobs[49].status, JobStatus::Completed);
}

#[test]
fn job_seconds_are_whole_and_never_negative() {
    let mut s = InnerState::new();
    let a = s.add_job("/r".to_string(), "/d".to_string(), ScanCancelToken::new(), 1000);
    assert_eq!(job_seconds(&s.jobs[0], 4999), (3, None));
    s.update_job(a, JobUpdate::Cancelled(3500));
    assert_eq!(job_seconds(&s.jobs[0], 500), (0, Some(2)));
}

#[test]
fn scan_form_is_read_and_held_to_ranges() {
    let q = scan_request("  /media  ", Some("drive"), Some("  "), true, Some(50), Some(10)).ok().unwrap();
    assert_eq!(q.config.root, "/media");
    assert_eq!(q.config.root_kind, ScanRootKind::Drive);
    assert!(q.config.capture_snapshots);
    assert_eq!(q.config.snapshots_per_video, 10);
    assert_eq!(q.config.snapshot_max_dim, 128);
    assert_eq!(q.db_path, None);
    let q = scan_request("/m", Some("folder"), Some(" /x.ddn "), false, None, None).ok().unwrap();
    assert_eq!(q.config.root_kind, ScanRootKind::Folder);
    assert_eq!(q.config.snapshots_per_video, 3);
    assert_eq!(q.config.snapshot_max_dim, 1024);
    assert_eq!(q.db_path, Some("/x.ddn".to_string()));
    match scan_request(" \t ", None, None, false, None, None) {
        Err(Error::InvalidArgument(m)) => assert_eq!(m, "root path is required"),
        _ => panic!("expected an error"),
    }
}

#[test]
fn matches_page_defaults_and_clamps() {
    assert_eq!(matches_page(None, None), (200, 0));
    assert_eq!(matches_page(Some(0), Some(5)), (1, 5));
    assert_eq!(matches_page(Some(99999), None), (2000, 0));
}

#[test]
fn web_groups_carry_key_texts() {
    let rows = vec![
        listed(1, "/a", Some([1u8; 32])),
        listed(2, "/b", Some([2u8; 32])),
        listed(3, "/c", Some([2u8; 32])),
        listed(4, "/d", Some([1u8; 32])),
        listed(5, "/e", Some([2u8; 32])),
    ];
    let groups = group_matches(&rows);
    assert_eq!(groups.len(), 2);
    assert_eq!(groups[0].members, vec![1, 2, 4]);
    assert_eq!(groups[0].key, format!("blake3:{}", "02".repeat(32)));
    assert_eq!(groups[1].members, vec![0, 3]);
    assert_eq!(exact_key_text(&ExactKey::Sha256([255u8; 32])), format!("sha256:{}", "ff".repeat(32)));
}

#[test]
fn interface_version_and_status_codes() {
    let v = ffi_version();
    assert_eq!((v.major, v.minor, v.patch), (1, 3, 0));
    assert_eq!(ffi_abi_major(), 1);
    assert_eq!(DupdupStatus::Success.code(), 0);
    assert_eq!(DupdupStatus::Error.code(), 1);
    assert_eq!(DupdupStatus::InvalidArgument.code(), 2);
    assert_eq!(DupdupStatus::NullPointer.code(), 3);
    let t = DupdupCancelToken::new();
    t.cancel();
    assert!(t.token.is_cancelled());
    let p = prescan_totals(ScanTotals { files: 3, bytes: 4 });
    assert_eq!((p.total_files, p.total_bytes), (3, 4));
}

#[test]
fn scan_options_defaults_and_clamps() {
    let d = default_scan_options();
    assert!(d.capture_snapshots);
    assert_eq!((d.snapshots_per_video, d.snapshot_max_dim), (3, 1024));
    let c = scan_config_from_options(
        "/r".to_string(),
        DupdupScanOptions { capture_snapshots: false, snapshots_per_video: 0, snapshot_max_dim: 9000 },
        false,
    );
    assert_eq!(c.root, "/r");
    assert_eq!(c.root_kind, ScanRootKind::Folder);
    assert!(!c.hash_files && c.perceptual_hashes && !c.capture_snapshots);
    assert_eq!((c.snapshots_per_video, c.snapshot_max_dim), (1, 4096));
}

#[test]
fn snapshot_info_flags() {
    let s = FileSnapshotRecord {
        snapshot_index: 2,
        snapshot_count: 3,
        at_ms: 700,
        duration_ms: None,
        ahash: Some(9),
        dhash: None,
        phash: Some(1),
        image_avif: Vec::new(),
    };
    let i = snapshot_info(&s);
    assert_eq!((i.snapshot_index, i.snapshot_count, i.at_ms), (2, 3, 700));
    assert_eq!((i.has_duration, i.duration_ms), (0, 0));
    assert_eq!((i.has_ahash, i.ahash), (1, 9));
    assert_eq!((i.has_dhash, i.dhash), (0, 0));
    assert_eq!((i.has_phash, i.phash), (1, 1));
}

#[test]
fn hex_option_and_listing_page() {
    assert_eq!(hash_to_hex_opt(None), "");
    assert_eq!(hash_to_hex_opt(Some(&[0x0f; 32])), "0f".repeat(32));
    assert_eq!(listing_page(50, 20, 10_000), (50, 20));
    assert_eq!(listing_page(u64::MAX, u64::MAX, 2_000), (2_000, 10_000_000));
}

#[test]
fn blank_and_edited_metadata() {
    let m = blank_fileset_metadata(77);
    assert_eq!(m.created_at, 77);
    assert_eq!(m.root_kind, ScanRootKind::Folder);
    assert!(m.name.is_empty() && m.status.is_empty() && m.root_path.is_empty());
    let e = with_user_texts(m, Some("N".to_string()), None, Some("notes".to_string()), Some("done".to_string()));
    assert_eq!(e.name, "N");
    assert_eq!(e.description, "");
    assert_eq!(e.notes, "notes");
    assert_eq!(e.status, "done");
    assert_eq!(e.created_at, 77);
}

#[test]
fn tool_texts() {
    assert_eq!(probe_output("  {\"a\":1}\n"), Some("{\"a\":1}".to_string()));
    assert_eq!(probe_output(" \n\t"), None);
    let os = "NAME=Debian\nPRETTY_NAME=\"Debian GNU/Linux 12 (bookworm)\"\nID=debian\n";
    assert_eq!(os_pretty_name(os), "Debian GNU/Linux 12 (bookworm)");
    assert_eq!(os_pretty_name("ID=x\n"), "");
    assert_eq!(
        scale_filter(1024),
        "scale='min(iw,1024)':'min(ih,1024)':force_original_aspect_ratio=decrease,scale=trunc(iw/2)*2:trunc(ih/2)*2"
    );
    assert!(scale_filter(0).starts_with("scale='min(iw,1)'"));
}

#[test]
fn browser_rows() {
    let f = RowItem::from_file(listed(1, "/a/b/photo.jpg", None));
    assert_eq!(f.label(), "photo.jpg");
    assert!(!f.is_group() && !f.is_match_item());
    assert_eq!(f.file_ref().unwrap().id, 1);
    let g = RowItem::match_group("Group".to_string(), vec![listed(2, "/x", None), listed(3, "/y", None)]);
    assert_eq!(g.label(), "Group");
    assert!(g.is_group());
    assert!(g.file_ref().is_none());
    let m = RowItem::match_item(FileRow::from_list_row(listed(4, "/", None)));
    assert!(m.is_match_item());
    assert_eq!(m.label(), "(unknown)");
    let rows = metadata_rows(2);
    assert_eq!(rows.len(), 9);
    assert!(matches!(&rows[5], CompareRow::Field(l, MetadataField::Sha256) if l == "SHA-256"));
    assert!(matches!(rows[8], CompareRow::Snapshot(1)));
    assert_eq!(snapshot_label(0), "Snapshot 1");
    let rec = MediaFileRecord {
        file_id: None,
        path: "dir/clip.mp4".to_string(),
        size_bytes: 0,
        modified_at: None,
        blake3: None,
        sha256: None,
        ahash: None,
        dhash: None,
        phash: None,
        ffmpeg_metadata: None,
        file_type: None,
    };
    assert_eq!(display_name(&rec), "clip.mp4");
}

fn compared_file() -> MediaFileRecord {
    MediaFileRecord {
        file_id: Some(9),
        path: "photos/cat.jpg".to_string(),
        size_bytes: 2048,
        modified_at: Some(1700000000),
        blake3: Some([0xabu8; 32]),
        sha256: None,
        ahash: None,
        dhash: None,
        phash: None,
        ffmpeg_metadata: None,
        file_type: Some("image/jpeg".to_string()),
    }
}

#[test]
fn metadata_values_of_a_compared_file() {
    let rec = compared_file();
    let v = |f: MetadataField| metadata_value(f, &rec, "/data", "2.00 KB".to_string());
    assert_eq!(v(MetadataField::Path), "/data/photos/cat.jpg");
    assert_eq!(v(MetadataField::Size), "2.00 KB");
    assert_eq!(v(MetadataField::Modified), "1700000000s");
    assert_eq!(v(MetadataField::FileType), "image/jpeg");
    assert_eq!(v(MetadataField::Blake3), "ab".repeat(32));
    assert_eq!(v(MetadataField::Sha256), "");
    assert_eq!(v(MetadataField::Ffmpeg), "");
    let mut undated = compared_file();
    undated.modified_at = None;
    assert_eq!(metadata_value(MetadataField::Modified, &undated, "/data", String::new()), "Unknown");
}

#[test]
fn joined_paths_follow_unix_rules() {
    assert_eq!(join_path("/data/", "a.txt"), "/data/a.txt");
    assert_eq!(join_path("/data", "a.txt"), "/data/a.txt");
    assert_eq!(join_path("", "a.txt"), "a.txt");
    assert_eq!(join_path("/data", "/abs/a.txt"), "/abs/a.txt");
}

#[test]
fn action_bar_counts_selection() {
    assert_eq!(action_bar_state(0), ("0 selected".to_string(), false));
    assert_eq!(action_bar_state(3), ("3 selected".to_string(), true));
}

#[test]
fn selection_follows_the_check_boxes() {
    let mut sel = FileSelection::new();
    sel.set_checked(4, "a/x.jpg".to_string(), "b/x.jpg".to_string(), true);
    sel.set_checked(7, "c.jpg".to_string(), "d.jpg".to_string(), true);
    assert_eq!(sel.count(), 2);
    assert!(sel.contains(4));
    sel.set_checked(4, String::new(), String::new(), false);
    assert!(!sel.contains(4) && sel.contains(7));
    assert_eq!(action_bar_state(sel.count()), ("1 selected".to_string(), true));
    sel.clear();
    assert_eq!(sel.count(), 0);
}

#[test]
fn linking_skips_the_parent_itself() {
    assert_eq!(link_paths("/data", "a.jpg", "./a.jpg"), None);
    assert_eq!(link_paths("/data", "a//b.jpg", "a/b.jpg"), None);
    assert_eq!(
        link_paths("/data", "copy/a.jpg", "a.jpg"),
        Some(("/data/copy/a.jpg".to_string(), "/data/a.jpg".to_string()))
    );
}
