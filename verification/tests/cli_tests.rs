use dupdupninja::cli::{
    fileset_file_name, human_elapsed, parse_command, parse_matches_args, parse_scan_args, parse_web_args,
    render_due, root_kind_label, sanitize_fileset_name, scan_config_from_args, shorten_path, visual_mode_for, CliCommand, ScanPhase,
    ScanUiState, VisualMode,
};
use dupdupninja::error::Error;
use dupdupninja::matches::MatchMode;
use dupdupninja::models::{ScanResult, ScanRootKind, ScanStats};
use dupdupninja::numbers::parse_number;
use dupdupninja::scan::{PrescanProgress, ScanProgress, ScanTotals};

fn args(words: &[&str]) -> Vec<String> {
    words.iter().map(|w| w.to_string()).collect()
}

fn message(e: Error) -> String {
    match e {
        Error::InvalidArgument(m) => m,
        _ => panic!("not an argument error"),
    }
}

#[test]
fn human_elapsed_leaves_out_leading_zero_units() {
    assert_eq!(human_elapsed(0), "0s");
    assert_eq!(human_elapsed(59), "59s");
    assert_eq!(human_elapsed(60), "1m 0s");
    assert_eq!(human_elapsed(3600), "1h 0m 0s");
    assert_eq!(human_elapsed(3725), "1h 2m 5s");
    assert_eq!(human_elapsed(93784), "1d 2h 3m 4s");
}

#[test]
fn shorten_path_keeps_the_tail() {
    assert_eq!(shorten_path("/a/b", 10), "/a/b");
    assert_eq!(shorten_path("/media/photos/2020/img.jpg", 8), "...img.jpg");
    assert_eq!(shorten_path("abcdef", 0), "...");
    assert_eq!(shorten_path("abcdef", 6), "abcdef");
}

#[test]
fn sanitize_fileset_name_makes_names_safe() {
    assert_eq!(sanitize_fileset_name("/home/u/My Photos.2020"), "my-photos-2020");
    assert_eq!(sanitize_fileset_name("/data/Raw_Files-1"), "raw_files-1");
    assert_eq!(sanitize_fileset_name("/"), "fileset");
    assert_eq!(sanitize_fileset_name("/x/%%%"), "fileset");
}

#[test]
fn fileset_file_name_adds_time_and_extension() {
    assert_eq!(fileset_file_name("/home/u/Pics", 1700000000), "pics-1700000000.ddn");
}

#[test]
fn root_kind_labels() {
    assert_eq!(root_kind_label(ScanRootKind::Folder), "folder");
    assert_eq!(root_kind_label(ScanRootKind::Drive), "drive");
}

#[test]
fn visual_mode_plain_for_dumb_or_no_color() {
    assert_eq!(visual_mode_for("xterm-256color", false), VisualMode::Pretty);
    assert_eq!(visual_mode_for("dumb", false), VisualMode::Plain);
    assert_eq!(visual_mode_for("xterm", true), VisualMode::Plain);
}

#[test]
fn render_due_after_eighty_ms() {
    assert!(!render_due(79, false));
    assert!(render_due(80, false));
    assert!(render_due(0, true));
}

#[test]
fn parse_number_follows_from_str() {
    assert_eq!(parse_number("42", u64::MAX), Some(42));
    assert_eq!(parse_number("+7", u64::MAX), Some(7));
    assert_eq!(parse_number("0", 10), Some(0));
    assert_eq!(parse_number("", u64::MAX), None);
    assert_eq!(parse_number("+", u64::MAX), None);
    assert_eq!(parse_number("-1", u64::MAX), None);
    assert_eq!(parse_number("12a", u64::MAX), None);
    assert_eq!(parse_number("65536", 65535), None);
    assert_eq!(parse_number("65535", 65535), Some(65535));
    assert_eq!(parse_number("18446744073709551615", u64::MAX), Some(u64::MAX));
    assert_eq!(parse_number("18446744073709551616", u64::MAX), None);
}

#[test]
fn scan_args_defaults_and_flags() {
    let a = parse_scan_args(&args(&["--root", "/m"])).unwrap();
    assert_eq!(a.root, "/m");
    assert_eq!(a.db, None);
    assert_eq!(a.root_kind, ScanRootKind::Folder);
    assert!(a.concurrent_processing);
    let a = parse_scan_args(&args(&["--path", "/x", "--db", "f.ddn", "--drive", "--single-threaded"])).unwrap();
    assert_eq!(a.root, "/x");
    assert_eq!(a.db, Some("f.ddn".to_string()));
    assert_eq!(a.root_kind, ScanRootKind::Drive);
    assert!(!a.concurrent_processing);
}

#[test]
fn scan_args_errors() {
    assert_eq!(message(parse_scan_args(&args(&[])).err().unwrap()), "missing --root <path>");
    assert_eq!(message(parse_scan_args(&args(&["--root"])).err().unwrap()), "missing value for --root <path>");
    assert_eq!(message(parse_scan_args(&args(&["--root", "/m", "--db"])).err().unwrap()), "missing value for --db <path>");
    assert_eq!(message(parse_scan_args(&args(&["--bogus"])).err().unwrap()), "unknown arg: --bogus");
}

#[test]
fn matches_args_defaults_and_values() {
    let a = parse_matches_args(&args(&["--db", "f.ddn"])).unwrap();
    assert_eq!(a.db, "f.ddn");
    assert_eq!(a.max_files, 500);
    assert_eq!(a.mode, MatchMode::All);
    assert_eq!(a.use_tui, None);
    assert_eq!((a.thresholds.ahash, a.thresholds.dhash, a.thresholds.phash), (10, 10, 8));
    let a = parse_matches_args(&args(&[
        "--db", "f", "--mode", "EXACT", "--plain", "--max-files", "20", "--ahash", "3", "--dhash", "4", "--phash",
        "5",
    ]))
    .unwrap();
    assert_eq!(a.mode, MatchMode::Exact);
    assert_eq!(a.use_tui, Some(false));
    assert_eq!(a.max_files, 20);
    assert_eq!((a.thresholds.ahash, a.thresholds.dhash, a.thresholds.phash), (3, 4, 5));
    let a = parse_matches_args(&args(&["--db", "f", "--similar", "--tui", "--phash"])).unwrap();
    assert_eq!(a.mode, MatchMode::Similar);
    assert_eq!(a.use_tui, Some(true));
    assert_eq!(a.thresholds.phash, 8);
}

#[test]
fn matches_args_errors() {
    assert_eq!(message(parse_matches_args(&args(&[])).err().unwrap()), "missing --db <path>");
    assert_eq!(message(parse_matches_args(&args(&["--db", "f", "--db"])).err().unwrap()), "missing --db <path>");
    assert_eq!(
        message(parse_matches_args(&args(&["--mode"])).err().unwrap()),
        "missing value for --mode <all|similar|exact>"
    );
    assert_eq!(
        message(parse_matches_args(&args(&["--mode", "x"])).err().unwrap()),
        "invalid --mode value: x (expected all|similar|exact)"
    );
    assert_eq!(
        message(parse_matches_args(&args(&["--max-files", "many"])).err().unwrap()),
        "invalid --max-files value: many"
    );
    assert_eq!(message(parse_matches_args(&args(&["--dhash", "-1"])).err().unwrap()), "invalid --dhash value: -1");
    assert_eq!(message(parse_matches_args(&args(&["--what"])).err().unwrap()), "unknown arg: --what");
}

#[test]
fn web_args_port() {
    assert_eq!(parse_web_args(&args(&[])).unwrap(), 4455);
    assert_eq!(parse_web_args(&args(&["--port", "8080"])).unwrap(), 8080);
    assert_eq!(parse_web_args(&args(&["--port"])).unwrap(), 4455);
    assert_eq!(message(parse_web_args(&args(&["--port", "70000"])).err().unwrap()), "invalid --port value: 70000");
    assert_eq!(message(parse_web_args(&args(&["-p"])).err().unwrap()), "unknown arg: -p");
}

#[test]
fn commands() {
    assert_eq!(parse_command(None).unwrap(), CliCommand::Help);
    assert_eq!(parse_command(Some("-h")).unwrap(), CliCommand::Help);
    assert_eq!(parse_command(Some("help")).unwrap(), CliCommand::Help);
    assert_eq!(parse_command(Some("scan")).unwrap(), CliCommand::Scan);
    assert_eq!(parse_command(Some("matches")).unwrap(), CliCommand::Matches);
    assert_eq!(parse_command(Some("web")).unwrap(), CliCommand::Web);
    assert_eq!(message(parse_command(Some("frobnicate")).err().unwrap()), "unknown command: frobnicate");
}

#[test]
fn scan_ui_state_follows_events() {
    let mut s = ScanUiState::new("/r".to_string(), "/d.ddn".to_string(), ScanRootKind::Folder, VisualMode::Plain);
    assert_eq!(s.phase, ScanPhase::Prescan);
    assert_eq!(s.phase.label(), "prescan");
    assert_eq!(s.current_step, "collecting totals");
    s.on_prescan_progress(&PrescanProgress { files_seen: 3, bytes_seen: 30, dirs_seen: 2, current_path: "/r/a".to_string() });
    assert_eq!((s.prescan_files, s.prescan_bytes, s.prescan_dirs), (3, 30, 2));
    s.on_prescan_done(ScanTotals { files: 10, bytes: 100 });
    assert_eq!((s.total_files, s.total_bytes), (10, 100));
    s.on_scan_progress(&ScanProgress {
        files_seen: 4,
        files_hashed: 3,
        files_skipped: 1,
        bytes_seen: 40,
        total_files: 0,
        total_bytes: 0,
        current_path: "/r/b".to_string(),
    });
    assert_eq!(s.phase.label(), "scan");
    assert_eq!(s.current_step, "scan");
    assert_eq!((s.total_files, s.total_bytes), (10, 100));
    assert_eq!((s.files_seen, s.files_hashed, s.files_skipped), (4, 3, 1));
    s.on_cancel_requested();
    assert_eq!(s.phase.label(), "cancel");
    assert_eq!(s.current_step, "cancellation requested");
    s.on_cancelled();
    assert_eq!(s.phase.label(), "cancelled");
    s.on_done(&ScanResult { stats: ScanStats { files_seen: 9, files_hashed: 8, files_skipped: 1 } });
    assert_eq!(s.phase, ScanPhase::Done);
    assert_eq!(s.current_step, "complete");
    assert_eq!(s.files_seen, 9);
}

#[test]
fn scan_command_config_follows_its_arguments() {
    let a = parse_scan_args(&args(&["--root", "/media", "--drive", "--single-threaded"])).unwrap();
    let c = scan_config_from_args(&a);
    assert_eq!(c.root, "/media");
    assert_eq!(c.root_kind, ScanRootKind::Drive);
    assert!(c.hash_files && c.perceptual_hashes);
    assert!(!c.capture_snapshots);
    assert_eq!((c.snapshots_per_video, c.snapshot_max_dim), (0, 0));
    assert!(!c.concurrent_processing);
    let d = scan_config_from_args(&parse_scan_args(&args(&["--path", "/x"])).unwrap());
    assert_eq!(d.root_kind, ScanRootKind::Folder);
    assert!(d.concurrent_processing);
}
