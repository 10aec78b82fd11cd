use dupdupninja::models::{DriveMetadata, ScanRootKind};
use dupdupninja::scan::{
    end_status_text, ended_metadata, file_read, fileset_name_from_root, initial_fileset_metadata, is_linked_file,
    new_file_record, plan_file, relative_to_root, root_missing, wants_snapshots, FileOutcome, HostInfo, PrescanState,
    EntryStep, FilePlan, ScanCancelToken, ScanConfig, ScanEnd, ScanState, ScanTotals,
};

fn host() -> HostInfo {
    HostInfo { os: "linux".to_string(), os_version: "Debian".to_string(), app_version: "0.1.0".to_string() }
}

#[test]
fn folder_config_defaults() {
    let c = ScanConfig::for_folder("/m".to_string());
    assert_eq!(c.root, "/m");
    assert_eq!(c.root_kind, ScanRootKind::Folder);
    assert!(c.hash_files && c.perceptual_hashes && c.capture_snapshots);
    assert_eq!((c.snapshots_per_video, c.snapshot_max_dim), (3, 1024));
}

#[test]
fn cancel_token_is_shared_by_clones() {
    let t = ScanCancelToken::new();
    let u = t.clone();
    assert!(!u.is_cancelled());
    t.cancel();
    assert!(u.is_cancelled());
}

#[test]
fn scan_counters_follow_outcomes() {
    let mut s = ScanState::start(Some(ScanTotals { files: 4, bytes: 40 }));
    s.on_file(&FileOutcome::Read { len: 10, blake3_ok: Some(true), sha256_ok: Some(true) });
    s.on_file(&FileOutcome::Read { len: 5, blake3_ok: Some(false), sha256_ok: Some(false) });
    s.on_file(&FileOutcome::Read { len: 7, blake3_ok: None, sha256_ok: None });
    s.on_file(&FileOutcome::MetadataUnreadable);
    s.on_walk_error();
    assert_eq!(s.stats.files_seen, 4);
    assert_eq!(s.stats.files_hashed, 1);
    assert_eq!(s.stats.files_skipped, 4);
    assert_eq!(s.bytes_seen, 22);
    let p = s.progress("/m/x".to_string());
    assert_eq!((p.total_files, p.total_bytes, p.bytes_seen), (4, 40, 22));
    assert_eq!(p.current_path, "/m/x");
}

#[test]
fn scan_bytes_saturate() {
    let mut s = ScanState::start(None);
    s.on_file(&FileOutcome::Read { len: u64::MAX, blake3_ok: None, sha256_ok: None });
    s.on_file(&FileOutcome::Read { len: 5, blake3_ok: None, sha256_ok: None });
    assert_eq!(s.bytes_seen, u64::MAX);
    assert!(s.can_count_more());
}

#[test]
fn prescan_counts_dirs_files_and_bytes() {
    let mut s = PrescanState::new();
    let p = s.on_dir("/m".to_string());
    assert_eq!((p.files_seen, p.dirs_seen), (0, 1));
    let p = s.on_file(Some(100), "/m/a".to_string());
    assert_eq!((p.files_seen, p.bytes_seen), (1, 100));
    let p = s.on_file(None, "/m/b".to_string());
    assert_eq!((p.files_seen, p.bytes_seen, p.dirs_seen), (2, 100, 1));
    let t = s.totals();
    assert_eq!((t.files, t.bytes), (2, 100));
}

#[test]
fn linked_files_are_neither_hashed_nor_perceptually_hashed() {
    assert!(is_linked_file(true, 1));
    assert!(is_linked_file(false, 2));
    assert!(!is_linked_file(false, 1));
    let c = ScanConfig::for_folder("/m".to_string());
    let p = plan_file(&c, false, "/m/a.png", None);
    assert!(p.perceptual_hashes && p.content_digests);
    let p = plan_file(&c, true, "/m/a.png", None);
    assert!(!p.perceptual_hashes && !p.content_digests);
    let p = plan_file(&c, false, "/m/a.mp4", None);
    assert!(!p.perceptual_hashes && p.content_digests);
}

#[test]
fn snapshots_need_a_video_and_a_duration() {
    let c = ScanConfig::for_folder("/m".to_string());
    assert!(wants_snapshots(&c, "/m/a.mov", None, Some(1000)));
    assert!(!wants_snapshots(&c, "/m/a.mov", None, None));
    assert!(!wants_snapshots(&c, "/m/a.jpg", None, Some(1000)));
    let mut off = ScanConfig::for_folder("/m".to_string());
    off.snapshots_per_video = 0;
    assert!(!wants_snapshots(&off, "/m/a.mov", None, Some(1000)));
}

#[test]
fn records_store_paths_relative_to_the_root() {
    assert_eq!(relative_to_root("/m", "/m/d/a.jpg"), Some("d/a.jpg".to_string()));
    assert_eq!(relative_to_root("/m", "/other/a.jpg"), None);
    let c = ScanConfig::for_folder("/m".to_string());
    let r = new_file_record(&c, "/m/d/a.jpg", 12, Some(5));
    assert_eq!(r.path, "d/a.jpg");
    assert_eq!((r.size_bytes, r.modified_at), (12, Some(5)));
    assert!(r.file_id.is_none() && r.blake3.is_none() && r.file_type.is_none());
    let r = new_file_record(&c, "/x/b.jpg", 1, None);
    assert_eq!(r.path, "/x/b.jpg");
}

#[test]
fn fileset_names_and_metadata() {
    assert_eq!(fileset_name_from_root("/media/Photos"), "Photos");
    assert_eq!(fileset_name_from_root("/"), "/");
    let c = ScanConfig::for_folder("/media/Photos".to_string());
    let drive = DriveMetadata { id: None, label: Some("L".to_string()), fs_type: None };
    let m = initial_fileset_metadata(&c, drive, 99, host());
    assert_eq!(m.created_at, 99);
    assert_eq!(m.root_parent_path, Some("/media".to_string()));
    assert_eq!(m.name, "Photos");
    assert_eq!(m.status, "");
    assert_eq!(m.host_os, "linux");
    assert_eq!(m.drive.label, Some("L".to_string()));
    let mut d = ScanConfig::for_folder("/dev-root".to_string());
    d.root_kind = ScanRootKind::Drive;
    let m2 = initial_fileset_metadata(&d, DriveMetadata { id: None, label: None, fs_type: None }, 1, host());
    assert_eq!(m2.root_parent_path, None);
    let done = ended_metadata(Some(m), &c, 500, host(), ScanEnd::Completed);
    assert_eq!(done.status, "completed");
    assert_eq!(done.created_at, 99);
    let fresh = ended_metadata(None, &c, 500, host(), ScanEnd::Incomplete);
    assert_eq!(fresh.status, "incomplete");
    assert_eq!(fresh.created_at, 500);
    assert_eq!(fresh.name, "Photos");
    assert_eq!(end_status_text(ScanEnd::Completed), "completed");
}

#[test]
fn read_file_takes_what_its_plan_asked_for() {
    let cfg = ScanConfig::for_folder("/r".to_string());
    let rec = new_file_record(&cfg, "/r/a.png", 10, None);
    let plan = FilePlan { perceptual_hashes: true, content_digests: true };
    let (r, o) = file_read(rec.clone(), plan, 10, Some((1, 2, 3)), Some([7u8; 32]), None);
    assert_eq!((r.ahash, r.dhash, r.phash), (Some(1), Some(2), Some(3)));
    assert_eq!(r.blake3, Some([7u8; 32]));
    assert_eq!(r.sha256, None);
    assert_eq!(r.path, "a.png");
    match o {
        FileOutcome::Read { len, blake3_ok, sha256_ok } => {
            assert_eq!((len, blake3_ok, sha256_ok), (10, Some(true), Some(false)));
        }
        _ => panic!("expected a read file"),
    }
    let skip = FilePlan { perceptual_hashes: false, content_digests: false };
    let (r, o) = file_read(rec, skip, 10, Some((1, 2, 3)), Some([7u8; 32]), Some([8u8; 32]));
    assert_eq!((r.ahash, r.blake3, r.sha256), (None, None, None));
    match o {
        FileOutcome::Read { blake3_ok, sha256_ok, .. } => assert_eq!((blake3_ok, sha256_ok), (None, None)),
        _ => panic!("expected a read file"),
    }
}

#[test]
fn scan_steps_and_outcome() {
    let mut s = ScanState::start(None);
    assert_eq!(s.next_step(false), EntryStep::Proceed);
    assert_eq!(s.next_step(true), EntryStep::Cancel);
    s.on_file(&FileOutcome::Read { len: 3, blake3_ok: Some(true), sha256_ok: Some(true) });
    let (end, r) = s.outcome(false);
    assert!(matches!(end, ScanEnd::Completed));
    assert_eq!(r.unwrap().stats.files_seen, 1);
    let (end, r) = s.outcome(true);
    assert!(matches!(end, ScanEnd::Incomplete));
    assert!(matches!(r, Err(dupdupninja::error::Error::Cancelled)));
}

#[test]
fn scan_and_prescan_count_the_same_files() {
    let mut s = ScanState::start(None);
    let mut p = PrescanState::new();
    p.on_dir("/r".to_string());
    p.on_file(Some(4), "/r/a".to_string());
    s.on_file(&FileOutcome::Read { len: 4, blake3_ok: None, sha256_ok: None });
    s.on_walk_error();
    p.on_file(None, "/r/b".to_string());
    s.on_file(&FileOutcome::MetadataUnreadable);
    assert_eq!(s.stats.files_seen, p.totals().files);
}

#[test]
fn missing_root_error_names_the_root() {
    match root_missing("/no/such") {
        dupdupninja::error::Error::InvalidArgument(m) => assert_eq!(m, "root does not exist: /no/such"),
        _ => panic!("expected an invalid argument"),
    }
}
