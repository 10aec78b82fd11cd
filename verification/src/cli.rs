//! The command line's own logic: reading its arguments, naming new
//! filesets, and the texts and state of its progress display.

use vstd::prelude::*;
use crate::error::Error;
use crate::matches::{mode_named, MatchMode};
use crate::models::{ScanResult, ScanRootKind};
use crate::numbers::{parse_number, parse_unsigned};
use crate::paths::{file_name, path_file_name};
use crate::scan::{PrescanProgress, ScanConfig, ScanProgress, ScanTotals};
use crate::similar::HashThresholds;
use crate::text::{
    append_decimal, append_str, ascii_lower, ascii_lower_seq, char_is_ascii_alnum, char_to_ascii_lower, chars_eq,
    decimal, is_ascii_alnum, string_from_chars, vec_from_str,
};
use crate::words::{char_is_ws, is_ws};

verus! {

/// A duration of `total` seconds as days, hours, minutes and seconds,
/// leading zero units left out: `"1d 2h 3m 4s"`, `"3m 0s"`, `"5s"`.
pub open spec fn elapsed_text(total: nat) -> Seq<char> {
    let days = total / 86400;
    let hours = (total % 86400) / 3600;
    let mins = (total % 3600) / 60;
    let secs = total % 60;
    if days > 0 {
        decimal(days) + "d "@ + decimal(hours) + "h "@ + decimal(mins) + "m "@ + decimal(secs) + "s"@
    } else if hours > 0 {
        decimal(hours) + "h "@ + decimal(mins) + "m "@ + decimal(secs) + "s"@
    } else if mins > 0 {
        decimal(mins) + "m "@ + decimal(secs) + "s"@
    } else {
        decimal(secs) + "s"@
    }
}

/// The elapsed time of `secs` seconds, as the progress display shows it.
pub fn human_elapsed(secs: u64) -> (s: String)
    ensures
        s@ == elapsed_text(secs as nat),
{
    let days = secs / 86400;
    let hours = (secs % 86400) / 3600;
    let mins = (secs % 3600) / 60;
    let rest = secs % 60;
    let mut v: Vec<char> = Vec::new();
    if days > 0 {
        append_decimal(&mut v, days);
        append_str(&mut v, "d ");
        append_decimal(&mut v, hours);
        append_str(&mut v, "h ");
        append_decimal(&mut v, mins);
        append_str(&mut v, "m ");
    } else if hours > 0 {
        append_decimal(&mut v, hours);
        append_str(&mut v, "h ");
        append_decimal(&mut v, mins);
        append_str(&mut v, "m ");
    } else if mins > 0 {
        append_decimal(&mut v, mins);
        append_str(&mut v, "m ");
    }
    append_decimal(&mut v, rest);
    append_str(&mut v, "s");
    string_from_chars(v.as_slice())
}

/// A path held to `max` characters: kept whole where it fits, else `...`
/// and its last `max - 1` characters.
pub open spec fn shortened(path: Seq<char>, max: nat) -> Seq<char> {
    if path.len() <= max {
        path
    } else {
        let keep = if max >= 1 {
            max - 1
        } else {
            0
        };
        "..."@ + path.skip(path.len() - keep)
    }
}

pub fn shorten_path(path: &str, max: usize) -> (s: String)
    ensures
        s@ == shortened(path@, max as nat),
{
    let v = vec_from_str(path);
    let n = v.len();
    if n <= max {
        return string_from_chars(v.as_slice());
    }
    let keep: usize = if max >= 1 {
        max - 1
    } else {
        0
    };
    let mut out: Vec<char> = Vec::new();
    append_str(&mut out, "...");
    let ghost start = out@;
    let mut i: usize = n - keep;
    while i < n
        invariant
            keep <= n,
            n - keep <= i <= n,
            n == v@.len(),
            v@ == path@,
            out@ == start + v@.subrange(n - keep, i as int),
        decreases n - i,
    {
        out.push(v[i]);
        assert(out@ =~= start + v@.subrange(n - keep, i + 1));
        i = i + 1;
    }
    assert(v@.subrange(n - keep, n as int) =~= v@.skip(n - keep));
    string_from_chars(out.as_slice())
}

/// A file name made safe: ASCII letters and digits lower-cased, `-` and `_`
/// kept, white space and dots made `-`, anything else dropped.
pub open spec fn sanitized(raw: Seq<char>) -> Seq<char>
    decreases raw.len(),
{
    if raw.len() == 0 {
        Seq::empty()
    } else {
        let c = raw.last();
        let prev = sanitized(raw.drop_last());
        if is_ascii_alnum(c) || c == '-' || c == '_' {
            prev.push(ascii_lower(c))
        } else if is_ws(c) || c == '.' {
            prev.push('-')
        } else {
            prev
        }
    }
}

/// The name a fileset of `root` gets: its last component made safe, or
/// `fileset` where nothing is left.
pub open spec fn fileset_base_name(root: Seq<char>) -> Seq<char> {
    let raw = match file_name(root) {
        Some(n) => n,
        None => "fileset"@,
    };
    let s = sanitized(raw);
    if s.len() == 0 {
        "fileset"@
    } else {
        s
    }
}

pub fn sanitize_fileset_name(root: &str) -> (s: String)
    ensures
        s@ == fileset_base_name(root@),
{
    let raw: Vec<char> = match path_file_name(root) {
        Some(n) => vec_from_str(n.as_str()),
        None => vec_from_str("fileset"),
    };
    let mut out: Vec<char> = Vec::new();
    let mut i: usize = 0;
    while i < raw.len()
        invariant
            i <= raw@.len(),
            out@ == sanitized(raw@.take(i as int)),
        decreases raw@.len() - i,
    {
        let c = raw[i];
        assert(raw@.take(i + 1).drop_last() =~= raw@.take(i as int));
        assert(raw@.take(i + 1).last() == c);
        if char_is_ascii_alnum(c) || c == '-' || c == '_' {
            out.push(char_to_ascii_lower(c));
        } else if char_is_ws(c) || c == '.' {
            out.push('-');
        }
        i = i + 1;
    }
    assert(raw@.take(raw@.len() as int) =~= raw@);
    if out.len() == 0 {
        string_from_chars(vec_from_str("fileset").as_slice())
    } else {
        string_from_chars(out.as_slice())
    }
}

/// The file name of a new fileset of `root` made at `ts` seconds since the
/// Unix epoch: `<name>-<ts>.ddn`.
pub open spec fn fileset_file(root: Seq<char>, ts: nat) -> Seq<char> {
    fileset_base_name(root) + "-"@ + decimal(ts) + ".ddn"@
}

pub fn fileset_file_name(root: &str, ts: u64) -> (s: String)
    ensures
        s@ == fileset_file(root@, ts as nat),
{
    let name = sanitize_fileset_name(root);
    let mut v = vec_from_str(name.as_str());
    append_str(&mut v, "-");
    append_decimal(&mut v, ts);
    append_str(&mut v, ".ddn");
    string_from_chars(v.as_slice())
}

/// How a root kind is named to the user.
pub fn root_kind_label(root_kind: ScanRootKind) -> (s: &'static str)
    ensures
        s@ == match root_kind {
            ScanRootKind::Folder => "folder"@,
            ScanRootKind::Drive => "drive"@,
        },
{
    match root_kind {
        ScanRootKind::Folder => "folder",
        ScanRootKind::Drive => "drive",
    }
}

/// Whether the display may use colour and box drawing.
#[derive(Debug, Clone, Copy, PartialEq, Eq, Structural)]
pub enum VisualMode {
    Pretty,
    Plain,
}

/// Plain where `NO_COLOR` is set or the terminal is `dumb`.
pub fn visual_mode_for(term: &str, no_color: bool) -> (m: VisualMode)
    ensures
        m == (if no_color || term@ == "dumb"@ {
            VisualMode::Plain
        } else {
            VisualMode::Pretty
        }),
{
    let t = vec_from_str(term);
    let dumb = vec_from_str("dumb");
    if no_color || chars_eq(t.as_slice(), dumb.as_slice()) {
        VisualMode::Plain
    } else {
        VisualMode::Pretty
    }
}

/// Whether the display is drawn again: always when forced, else once at
/// least 80 ms have passed since it was last drawn.
pub fn render_due(since_last_ms: u64, force: bool) -> (r: bool)
    ensures
        r == (force || since_last_ms >= 80),
{
    force || since_last_ms >= 80
}


/// Which part of a scan the display shows.
#[derive(Debug, Clone, Copy, PartialEq, Eq, Structural)]
pub enum ScanPhase {
    Prescan,
    Scan,
    Done,
    Cancel,
    Cancelled,
}

impl ScanPhase {
    /// The phase as the display names it.
    pub fn label(self) -> (s: &'static str)
        ensures
            s@ == match self {
                ScanPhase::Prescan => "prescan"@,
                ScanPhase::Scan => "scan"@,
                ScanPhase::Done => "done"@,
                ScanPhase::Cancel => "cancel"@,
                ScanPhase::Cancelled => "cancelled"@,
            },
    {
        match self {
            ScanPhase::Prescan => "prescan",
            ScanPhase::Scan => "scan",
            ScanPhase::Done => "done",
            ScanPhase::Cancel => "cancel",
            ScanPhase::Cancelled => "cancelled",
        }
    }
}

/// What the scan display shows.
pub struct ScanUiState {
    pub root: String,
    pub db: String,
    pub root_kind: ScanRootKind,
    pub phase: ScanPhase,
    pub current_step: String,
    pub current_path: String,
    pub active_tasks: Vec<String>,
    pub files_seen: u64,
    pub files_hashed: u64,
    pub files_skipped: u64,
    pub total_files: u64,
    pub total_bytes: u64,
    pub prescan_files: u64,
    pub prescan_dirs: u64,
    pub prescan_bytes: u64,
    pub visual_mode: VisualMode,
}

impl ScanUiState {
    /// The fields that the progress events leave alone.
    pub open spec fn same_setting(&self, other: &ScanUiState) -> bool {
        &&& self.root == other.root
        &&& self.db == other.db
        &&& self.root_kind == other.root_kind
        &&& self.visual_mode == other.visual_mode
    }

    pub fn new(root: String, db: String, root_kind: ScanRootKind, visual_mode: VisualMode) -> (s: ScanUiState)
        ensures
            s.root == root,
            s.db == db,
            s.root_kind == root_kind,
            s.visual_mode == visual_mode,
            s.phase == ScanPhase::Prescan,
            s.current_step@ == "collecting totals"@,
            s.current_path@ == Seq::<char>::empty(),
            s.active_tasks@.len() == 0,
            s.files_seen == 0 && s.files_hashed == 0 && s.files_skipped == 0,
            s.total_files == 0 && s.total_bytes == 0,
            s.prescan_files == 0 && s.prescan_dirs == 0 && s.prescan_bytes == 0,
    {
        ScanUiState {
            root,
            db,
            root_kind,
            phase: ScanPhase::Prescan,
            current_step: "collecting totals".to_owned(),
            current_path: String::new(),
            active_tasks: Vec::new(),
            files_seen: 0,
            files_hashed: 0,
            files_skipped: 0,
            total_files: 0,
            total_bytes: 0,
            prescan_files: 0,
            prescan_dirs: 0,
            prescan_bytes: 0,
            visual_mode,
        }
    }

    pub fn on_prescan_progress(&mut self, progress: &PrescanProgress)
        ensures
            final(self).same_setting(old(self)),
            final(self).phase == ScanPhase::Prescan,
            final(self).current_step@ == "collecting totals"@,
            final(self).current_path@ == progress.current_path@,
            final(self).prescan_files == progress.files_seen,
            final(self).prescan_dirs == progress.dirs_seen,
            final(self).prescan_bytes == progress.bytes_seen,
            final(self).active_tasks == old(self).active_tasks,
            final(self).files_seen == old(self).files_seen,
            final(self).files_hashed == old(self).files_hashed,
            final(self).files_skipped == old(self).files_skipped,
            final(self).total_files == old(self).total_files,
            final(self).total_bytes == old(self).total_bytes,
    {
        self.phase = ScanPhase::Prescan;
        self.current_step = "collecting totals".to_owned();
        self.current_path = progress.current_path.clone();
        self.prescan_files = progress.files_seen;
        self.prescan_dirs = progress.dirs_seen;
        self.prescan_bytes = progress.bytes_seen;
    }

    pub fn on_prescan_done(&mut self, totals: ScanTotals)
        ensures
            final(self).same_setting(old(self)),
            final(self).total_files == totals.files,
            final(self).total_bytes == totals.bytes,
            final(self).phase == old(self).phase,
            final(self).current_step == old(self).current_step,
            final(self).current_path == old(self).current_path,
            final(self).active_tasks == old(self).active_tasks,
            final(self).files_seen == old(self).files_seen,
            final(self).files_hashed == old(self).files_hashed,
            final(self).files_skipped == old(self).files_skipped,
            final(self).prescan_files == old(self).prescan_files,
            final(self).prescan_dirs == old(self).prescan_dirs,
            final(self).prescan_bytes == old(self).prescan_bytes,
    {
        self.total_files = totals.files;
        self.total_bytes = totals.bytes;
    }

    /// Takes in a scan's progress; totals of 0 keep the prescan's.
    pub fn on_scan_progress(&mut self, progress: &ScanProgress)
        ensures
            final(self).same_setting(old(self)),
            final(self).phase == ScanPhase::Scan,
            final(self).current_step@ == "scan"@,
            final(self).current_path@ == progress.current_path@,
            final(self).active_tasks@.len() == 0,
            final(self).files_seen == progress.files_seen,
            final(self).files_hashed == progress.files_hashed,
            final(self).files_skipped == progress.files_skipped,
            final(self).total_files == if progress.total_files > 0 {
                progress.total_files
            } else {
                old(self).total_files
            },
            final(self).total_bytes == if progress.total_bytes > 0 {
                progress.total_bytes
            } else {
                old(self).total_bytes
            },
            final(self).prescan_files == old(self).prescan_files,
            final(self).prescan_dirs == old(self).prescan_dirs,
            final(self).prescan_bytes == old(self).prescan_bytes,
    {
        self.phase = ScanPhase::Scan;
        self.current_step = "scan".to_owned();
        self.current_path = progress.current_path.clone();
        self.active_tasks = Vec::new();
        self.files_seen = progress.files_seen;
        self.files_hashed = progress.files_hashed;
        self.files_skipped = progress.files_skipped;
        if progress.total_files > 0 {
            self.total_files = progress.total_files;
        }
        if progress.total_bytes > 0 {
            self.total_bytes = progress.total_bytes;
        }
    }

    pub fn on_done(&mut self, result: &ScanResult)
        ensures
            final(self).same_setting(old(self)),
            final(self).phase == ScanPhase::Done,
            final(self).current_step@ == "complete"@,
            final(self).active_tasks@.len() == 0,
            final(self).files_seen == result.stats.files_seen,
            final(self).files_hashed == result.stats.files_hashed,
            final(self).files_skipped == result.stats.files_skipped,
            final(self).current_path == old(self).current_path,
            final(self).total_files == old(self).total_files,
            final(self).total_bytes == old(self).total_bytes,
            final(self).prescan_files == old(self).prescan_files,
            final(self).prescan_dirs == old(self).prescan_dirs,
            final(self).prescan_bytes == old(self).prescan_bytes,
    {
        self.phase = ScanPhase::Done;
        self.current_step = "complete".to_owned();
        self.active_tasks = Vec::new();
        self.files_seen = result.stats.files_seen;
        self.files_hashed = result.stats.files_hashed;
        self.files_skipped = result.stats.files_skipped;
    }

    pub fn on_cancel_requested(&mut self)
        ensures
            final(self).same_setting(old(self)),
            final(self).phase == ScanPhase::Cancel,
            final(self).current_step@ == "cancellation requested"@,
            final(self).active_tasks@.len() == 0,
            final(self).current_path == old(self).current_path,
            final(self).files_seen == old(self).files_seen,
            final(self).files_hashed == old(self).files_hashed,
            final(self).files_skipped == old(self).files_skipped,
            final(self).total_files == old(self).total_files,
            final(self).total_bytes == old(self).total_bytes,
            final(self).prescan_files == old(self).prescan_files,
            final(self).prescan_dirs == old(self).prescan_dirs,
            final(self).prescan_bytes == old(self).prescan_bytes,
    {
        self.phase = ScanPhase::Cancel;
        self.current_step = "cancellation requested".to_owned();
        self.active_tasks = Vec::new();
    }

    pub fn on_cancelled(&mut self)
        ensures
            final(self).same_setting(old(self)),
            final(self).phase == ScanPhase::Cancelled,
            final(self).current_step@ == "cancelled"@,
            final(self).active_tasks@.len() == 0,
            final(self).current_path == old(self).current_path,
            final(self).files_seen == old(self).files_seen,
            final(self).files_hashed == old(self).files_hashed,
            final(self).files_skipped == old(self).files_skipped,
            final(self).total_files == old(self).total_files,
            final(self).total_bytes == old(self).total_bytes,
            final(self).prescan_files == old(self).prescan_files,
            final(self).prescan_dirs == old(self).prescan_dirs,
            final(self).prescan_bytes == old(self).prescan_bytes,
    {
        self.phase = ScanPhase::Cancelled;
        self.current_step = "cancelled".to_owned();
        self.active_tasks = Vec::new();
    }
}


/// What `scan` was asked to do.
#[derive(Debug, Clone)]
pub struct ScanArgs {
    pub root: String,
    pub db: Option<String>,
    pub root_kind: ScanRootKind,
    pub concurrent_processing: bool,
}

pub type ScanArgsView = (Seq<char>, Option<Seq<char>>, ScanRootKind, bool);

pub open spec fn opt_view(o: Option<String>) -> Option<Seq<char>> {
    match o {
        Some(s) => Some(s@),
        None => None,
    }
}

/// The arguments of `scan` from position `i` on, given what the earlier
/// ones set: the request, or the message of the error.
pub open spec fn scan_args_from(
    args: Seq<String>,
    i: int,
    root: Option<Seq<char>>,
    db: Option<Seq<char>>,
    kind: ScanRootKind,
    concurrent: bool,
) -> Result<ScanArgsView, Seq<char>>
    decreases args.len() - i,
{
    if i >= args.len() || i < 0 {
        match root {
            Some(r) => Ok((r, db, kind, concurrent)),
            None => Err("missing --root <path>"@),
        }
    } else {
        let a = args[i]@;
        if a == "--root"@ || a == "--path"@ {
            if i + 1 < args.len() {
                scan_args_from(args, i + 2, Some(args[i + 1]@), db, kind, concurrent)
            } else {
                Err("missing value for --root <path>"@)
            }
        } else if a == "--db"@ {
            if i + 1 < args.len() {
                scan_args_from(args, i + 2, root, Some(args[i + 1]@), kind, concurrent)
            } else {
                Err("missing value for --db <path>"@)
            }
        } else if a == "--drive"@ {
            scan_args_from(args, i + 1, root, db, ScanRootKind::Drive, concurrent)
        } else if a == "--folder"@ {
            scan_args_from(args, i + 1, root, db, ScanRootKind::Folder, concurrent)
        } else if a == "--single-threaded"@ {
            scan_args_from(args, i + 1, root, db, kind, false)
        } else if a == "--concurrent"@ {
            scan_args_from(args, i + 1, root, db, kind, true)
        } else {
            Err("unknown arg: "@ + a)
        }
    }
}

fn is_word(a: &String, w: &str) -> (r: bool)
    ensures
        r == (a@ == w@),
{
    let x = vec_from_str(a.as_str());
    let y = vec_from_str(w);
    chars_eq(x.as_slice(), y.as_slice())
}

fn unknown_arg(a: &String) -> (e: Error)
    ensures
        e matches Error::InvalidArgument(m) && m@ == "unknown arg: "@ + a@,
{
    let mut v: Vec<char> = Vec::new();
    append_str(&mut v, "unknown arg: ");
    append_str(&mut v, a.as_str());
    Error::InvalidArgument(string_from_chars(v.as_slice()))
}

fn invalid_text(msg: &str) -> (e: Error)
    ensures
        e matches Error::InvalidArgument(m) && m@ == msg@,
{
    Error::InvalidArgument(msg.to_owned())
}

/// Reads the arguments of `scan`: `--root` (or `--path`) and `--db` with a
/// value, `--drive`, `--folder`, `--single-threaded`, `--concurrent`; a
/// root is required.
pub fn parse_scan_args(args: &[String]) -> (r: Result<ScanArgs, Error>)
    ensures
        match r {
            Ok(a) => scan_args_from(args@, 0, None, None, ScanRootKind::Folder, true) == Ok::<ScanArgsView, Seq<char>>(
                (a.root@, opt_view(a.db), a.root_kind, a.concurrent_processing),
            ),
            Err(e) => e matches Error::InvalidArgument(m) && scan_args_from(
                args@,
                0,
                None,
                None,
                ScanRootKind::Folder,
                true,
            ) == Err::<ScanArgsView, Seq<char>>(m@),
        },
{
    let ghost goal = scan_args_from(args@, 0, None, None, ScanRootKind::Folder, true);
    let mut root: Option<String> = None;
    let mut db: Option<String> = None;
    let mut kind = ScanRootKind::Folder;
    let mut concurrent = true;
    let n = args.len();
    let mut i: usize = 0;
    while i < n
        invariant
            n == args@.len(),
            i <= n,
            goal == scan_args_from(args@, 0, None, None, ScanRootKind::Folder, true),
            scan_args_from(args@, i as int, opt_view(root), opt_view(db), kind, concurrent) == goal,
        decreases n - i,
    {
        let a = &args[i];
        let is_root = is_word(a, "--root");
        let is_path = is_word(a, "--path");
        if is_root || is_path {
            if i + 1 < n {
                root = Some(args[i + 1].clone());
                i = i + 2;
            } else {
                return Err(invalid_text("missing value for --root <path>"));
            }
        } else if is_word(a, "--db") {
            if i + 1 < n {
                db = Some(args[i + 1].clone());
                i = i + 2;
            } else {
                return Err(invalid_text("missing value for --db <path>"));
            }
        } else if is_word(a, "--drive") {
            kind = ScanRootKind::Drive;
            i = i + 1;
        } else if is_word(a, "--folder") {
            kind = ScanRootKind::Folder;
            i = i + 1;
        } else if is_word(a, "--single-threaded") {
            concurrent = false;
            i = i + 1;
        } else if is_word(a, "--concurrent") {
            concurrent = true;
            i = i + 1;
        } else {
            return Err(unknown_arg(a));
        }
    }
    match root {
        Some(r) => Ok(ScanArgs { root: r, db, root_kind: kind, concurrent_processing: concurrent }),
        None => Err(invalid_text("missing --root <path>")),
    }
}

/// The scan the `scan` command runs: the root and root kind it was given,
/// content digests and perceptual hashes on, no video snapshots, and files
/// processed concurrently unless `--single-threaded` was given last.
pub fn scan_config_from_args(a: &ScanArgs) -> (c: ScanConfig)
    ensures
        c.root == a.root,
        c.root_kind == a.root_kind,
        c.hash_files,
        c.perceptual_hashes,
        !c.capture_snapshots,
        c.snapshots_per_video == 0,
        c.snapshot_max_dim == 0,
        c.concurrent_processing == a.concurrent_processing,
{
    ScanConfig {
        root: a.root.clone(),
        root_kind: a.root_kind,
        hash_files: true,
        perceptual_hashes: true,
        capture_snapshots: false,
        snapshots_per_video: 0,
        snapshot_max_dim: 0,
        concurrent_processing: a.concurrent_processing,
    }
}


/// What `matches` was asked to do.
#[derive(Debug, Clone)]
pub struct MatchesArgs {
    pub db: String,
    pub max_files: usize,
    pub mode: MatchMode,
    pub use_tui: Option<bool>,
    pub thresholds: HashThresholds,
}

pub type MatchesArgsView = (Seq<char>, usize, MatchMode, Option<bool>, HashThresholds);

/// The thresholds of `matches` where none are given: aHash and dHash 10,
/// pHash 8.
pub open spec fn default_thresholds() -> HashThresholds {
    HashThresholds { ahash: 10, dhash: 10, phash: 8 }
}

/// The arguments of `matches` from position `i` on, given what the earlier
/// ones set: the request, or the message of the error. A value-taking
/// option given last without its value sets nothing, except `--db`, which
/// is then unset, and `--mode`, which is an error.
pub open spec fn matches_args_from(
    args: Seq<String>,
    i: int,
    db: Option<Seq<char>>,
    max_files: usize,
    mode: MatchMode,
    tui: Option<bool>,
    t: HashThresholds,
) -> Result<MatchesArgsView, Seq<char>>
    decreases args.len() - i,
{
    if i >= args.len() || i < 0 {
        match db {
            Some(d) => Ok((d, max_files, mode, tui, t)),
            None => Err("missing --db <path>"@),
        }
    } else {
        let a = args[i]@;
        let has_value = i + 1 < args.len();
        let v = args[i + 1]@;
        if a == "--db"@ {
            if has_value {
                matches_args_from(args, i + 2, Some(v), max_files, mode, tui, t)
            } else {
                matches_args_from(args, i + 1, None, max_files, mode, tui, t)
            }
        } else if a == "--mode"@ {
            if has_value {
                match mode_named(v) {
                    Some(m) => matches_args_from(args, i + 2, db, max_files, m, tui, t),
                    None => Err("invalid --mode value: "@ + v + " (expected all|similar|exact)"@),
                }
            } else {
                Err("missing value for --mode <all|similar|exact>"@)
            }
        } else if a == "--all"@ {
            matches_args_from(args, i + 1, db, max_files, MatchMode::All, tui, t)
        } else if a == "--similar"@ {
            matches_args_from(args, i + 1, db, max_files, MatchMode::Similar, tui, t)
        } else if a == "--exact"@ {
            matches_args_from(args, i + 1, db, max_files, MatchMode::Exact, tui, t)
        } else if a == "--tui"@ {
            matches_args_from(args, i + 1, db, max_files, mode, Some(true), t)
        } else if a == "--plain"@ {
            matches_args_from(args, i + 1, db, max_files, mode, Some(false), t)
        } else if a == "--max-files"@ {
            if !has_value {
                matches_args_from(args, i + 1, db, max_files, mode, tui, t)
            } else {
                match parse_unsigned(v, usize::MAX as nat) {
                    Some(x) => matches_args_from(args, i + 2, db, x as usize, mode, tui, t),
                    None => Err("invalid --max-files value: "@ + v),
                }
            }
        } else if a == "--ahash"@ {
            if !has_value {
                matches_args_from(args, i + 1, db, max_files, mode, tui, t)
            } else {
                match parse_unsigned(v, u32::MAX as nat) {
                    Some(x) => matches_args_from(args, i + 2, db, max_files, mode, tui, HashThresholds { ahash: x as u32, ..t }),
                    None => Err("invalid --ahash value: "@ + v),
                }
            }
        } else if a == "--dhash"@ {
            if !has_value {
                matches_args_from(args, i + 1, db, max_files, mode, tui, t)
            } else {
                match parse_unsigned(v, u32::MAX as nat) {
                    Some(x) => matches_args_from(args, i + 2, db, max_files, mode, tui, HashThresholds { dhash: x as u32, ..t }),
                    None => Err("invalid --dhash value: "@ + v),
                }
            }
        } else if a == "--phash"@ {
            if !has_value {
                matches_args_from(args, i + 1, db, max_files, mode, tui, t)
            } else {
                match parse_unsigned(v, u32::MAX as nat) {
                    Some(x) => matches_args_from(args, i + 2, db, max_files, mode, tui, HashThresholds { phash: x as u32, ..t }),
                    None => Err("invalid --phash value: "@ + v),
                }
            }
        } else {
            Err("unknown arg: "@ + a)
        }
    }
}

fn parse_threshold(v: &String) -> (r: Option<u32>)
    ensures
        match r {
            Some(x) => parse_unsigned(v@, u32::MAX as nat) == Some(x as nat),
            None => parse_unsigned(v@, u32::MAX as nat) is None,
        },
{
    match parse_number(v.as_str(), u32::MAX as u64) {
        Some(x) => Some(x as u32),
        None => None,
    }
}

/// Reads the arguments of `matches`: `--db`, `--mode`, `--all`,
/// `--similar`, `--exact`, `--tui`, `--plain`, `--max-files` (500 where not
/// given) and the three hash thresholds; a database is required.
pub fn parse_matches_args(args: &[String]) -> (r: Result<MatchesArgs, Error>)
    ensures
        match r {
            Ok(a) => matches_args_from(args@, 0, None, 500, MatchMode::All, None, default_thresholds())
                == Ok::<MatchesArgsView, Seq<char>>((a.db@, a.max_files, a.mode, a.use_tui, a.thresholds)),
            Err(e) => e matches Error::InvalidArgument(m) && matches_args_from(
                args@,
                0,
                None,
                500,
                MatchMode::All,
                None,
                default_thresholds(),
            ) == Err::<MatchesArgsView, Seq<char>>(m@),
        },
{
    let ghost goal = matches_args_from(args@, 0, None, 500, MatchMode::All, None, default_thresholds());
    let mut db: Option<String> = None;
    let mut max_files: usize = 500;
    let mut mode = MatchMode::All;
    let mut tui: Option<bool> = None;
    let mut t = HashThresholds { ahash: 10, dhash: 10, phash: 8 };
    let n = args.len();
    let mut i: usize = 0;
    while i < n
        invariant
            n == args@.len(),
            i <= n,
            goal == matches_args_from(args@, 0, None, 500, MatchMode::All, None, default_thresholds()),
            matches_args_from(args@, i as int, opt_view(db), max_files, mode, tui, t) == goal,
        decreases n - i,
    {
        let a = &args[i];
        let has_value = i + 1 < n;
        if is_word(a, "--db") {
            if has_value {
                db = Some(args[i + 1].clone());
                i = i + 2;
            } else {
                db = None;
                i = i + 1;
            }
        } else if is_word(a, "--mode") {
            if has_value {
                match MatchMode::parse(args[i + 1].as_str()) {
                    Ok(m) => {
                        mode = m;
                        i = i + 2;
                    },
                    Err(e) => {
                        return Err(e);
                    },
                }
            } else {
                return Err(invalid_text("missing value for --mode <all|similar|exact>"));
            }
        } else if is_word(a, "--all") {
            mode = MatchMode::All;
            i = i + 1;
        } else if is_word(a, "--similar") {
            mode = MatchMode::Similar;
            i = i + 1;
        } else if is_word(a, "--exact") {
            mode = MatchMode::Exact;
            i = i + 1;
        } else if is_word(a, "--tui") {
            tui = Some(true);
            i = i + 1;
        } else if is_word(a, "--plain") {
            tui = Some(false);
            i = i + 1;
        } else if is_word(a, "--max-files") {
            if !has_value {
                i = i + 1;
            } else {
                let v = &args[i + 1];
                match parse_number(v.as_str(), usize::MAX as u64) {
                    Some(x) => {
                        max_files = x as usize;
                        i = i + 2;
                    },
                    None => {
                        return Err(invalid_value("invalid --max-files value: ", v));
                    },
                }
            }
        } else if is_word(a, "--ahash") || is_word(a, "--dhash") || is_word(a, "--phash") {
            let which_a = is_word(a, "--ahash");
            let which_d = is_word(a, "--dhash");
            if !has_value {
                i = i + 1;
            } else {
                let v = &args[i + 1];
                match parse_threshold(v) {
                    Some(x) => {
                        if which_a {
                            t = HashThresholds { ahash: x, ..t };
                        } else if which_d {
                            t = HashThresholds { dhash: x, ..t };
                        } else {
                            t = HashThresholds { phash: x, ..t };
                        }
                        i = i + 2;
                    },
                    None => {
                        if which_a {
                            return Err(invalid_value("invalid --ahash value: ", v));
                        } else if which_d {
                            return Err(invalid_value("invalid --dhash value: ", v));
                        } else {
                            return Err(invalid_value("invalid --phash value: ", v));
                        }
                    },
                }
            }
        } else {
            return Err(unknown_arg(a));
        }
    }
    match db {
        Some(d) => Ok(MatchesArgs { db: d, max_files, mode, use_tui: tui, thresholds: t }),
        None => Err(invalid_text("missing --db <path>")),
    }
}

fn invalid_value(prefix: &str, value: &String) -> (e: Error)
    ensures
        e matches Error::InvalidArgument(m) && m@ == prefix@ + value@,
{
    let mut v: Vec<char> = Vec::new();
    append_str(&mut v, prefix);
    append_str(&mut v, value.as_str());
    Error::InvalidArgument(string_from_chars(v.as_slice()))
}

/// The arguments of `web` from position `i` on: the port, or the message of
/// the error. `--port` given last without its value sets nothing.
pub open spec fn web_args_from(args: Seq<String>, i: int, port: u16) -> Result<u16, Seq<char>>
    decreases args.len() - i,
{
    if i >= args.len() || i < 0 {
        Ok(port)
    } else {
        let a = args[i]@;
        if a == "--port"@ {
            if i + 1 < args.len() {
                match parse_unsigned(args[i + 1]@, u16::MAX as nat) {
                    Some(p) => web_args_from(args, i + 2, p as u16),
                    None => Err("invalid --port value: "@ + args[i + 1]@),
                }
            } else {
                Ok(port)
            }
        } else {
            Err("unknown arg: "@ + a)
        }
    }
}

/// Reads the arguments of `web`: `--port`, 4455 where not given.
pub fn parse_web_args(args: &[String]) -> (r: Result<u16, Error>)
    ensures
        match r {
            Ok(p) => web_args_from(args@, 0, 4455) == Ok::<u16, Seq<char>>(p),
            Err(e) => e matches Error::InvalidArgument(m) && web_args_from(args@, 0, 4455) == Err::<u16, Seq<char>>(m@),
        },
{
    let ghost goal = web_args_from(args@, 0, 4455);
    let mut port: u16 = 4455;
    let n = args.len();
    let mut i: usize = 0;
    while i < n
        invariant
            n == args@.len(),
            i <= n,
            goal == web_args_from(args@, 0, 4455),
            web_args_from(args@, i as int, port) == goal,
        decreases n - i,
    {
        let a = &args[i];
        if is_word(a, "--port") {
            if i + 1 < n {
                let v = &args[i + 1];
                match parse_number(v.as_str(), 65535) {
                    Some(p) => {
                        port = p as u16;
                        i = i + 2;
                    },
                    None => {
                        return Err(invalid_value("invalid --port value: ", v));
                    },
                }
            } else {
                i = i + 1;
            }
        } else {
            return Err(unknown_arg(a));
        }
    }
    Ok(port)
}

/// The command of the command line.
#[derive(Debug, Clone, Copy, PartialEq, Eq, Structural)]
pub enum CliCommand {
    Help,
    Scan,
    Matches,
    Web,
}

/// The command named by the first argument; none asks for help.
pub fn parse_command(first: Option<&str>) -> (r: Result<CliCommand, Error>)
    ensures
        match first {
            None => r == Ok::<CliCommand, Error>(CliCommand::Help),
            Some(c) => {
                let w = c@;
                if w == "--help"@ || w == "-h"@ || w == "help"@ {
                    r == Ok::<CliCommand, Error>(CliCommand::Help)
                } else if w == "scan"@ {
                    r == Ok::<CliCommand, Error>(CliCommand::Scan)
                } else if w == "matches"@ {
                    r == Ok::<CliCommand, Error>(CliCommand::Matches)
                } else if w == "web"@ {
                    r == Ok::<CliCommand, Error>(CliCommand::Web)
                } else {
                    r matches Err(Error::InvalidArgument(m)) && m@ == "unknown command: "@ + w
                }
            },
        },
{
    match first {
        None => Ok(CliCommand::Help),
        Some(c) => {
            let w = c.to_owned();
            let help1 = is_word(&w, "--help");
            let help2 = is_word(&w, "-h");
            let help3 = is_word(&w, "help");
            if help1 || help2 || help3 {
                Ok(CliCommand::Help)
            } else if is_word(&w, "scan") {
                Ok(CliCommand::Scan)
            } else if is_word(&w, "matches") {
                Ok(CliCommand::Matches)
            } else if is_word(&w, "web") {
                Ok(CliCommand::Web)
            } else {
                let mut v: Vec<char> = Vec::new();
                append_str(&mut v, "unknown command: ");
                append_str(&mut v, c);
                Err(Error::InvalidArgument(string_from_chars(v.as_slice())))
            }
        },
    }
}


/// A character a fileset's file name may hold: a lower-case ASCII letter, a
/// digit, `-` or `_`.
pub open spec fn name_safe(c: char) -> bool {
    ('a' <= c && c <= 'z') || ('0' <= c && c <= '9') || c == '-' || c == '_'
}

proof fn lemma_sanitized_safe(raw: Seq<char>)
    ensures
        forall|i: int| 0 <= i < sanitized(raw).len() ==> name_safe(#[trigger] sanitized(raw)[i]),
    decreases raw.len(),
{
    if raw.len() > 0 {
        lemma_sanitized_safe(raw.drop_last());
        let prev = sanitized(raw.drop_last());
        let cur = sanitized(raw);
        assert forall|i: int| 0 <= i < cur.len() implies name_safe(#[trigger] cur[i]) by {
            if i < prev.len() {
                assert(cur[i] == prev[i]);
            } else {
                let c = raw.last();
                if 'A' <= c && c <= 'Z' {
                    assert(ascii_lower(c) as u32 == c as u32 + 32);
                }
            }
        }
    }
}

/// A new fileset's base name is never empty and holds only lower-case ASCII
/// letters, digits, `-` and `_`, whatever the root.
pub proof fn lemma_fileset_name_safe(root: Seq<char>)
    ensures
        fileset_base_name(root).len() > 0,
        forall|i: int| 0 <= i < fileset_base_name(root).len() ==> name_safe(#[trigger] fileset_base_name(root)[i]),
{
    reveal_strlit("fileset");
    let raw = match file_name(root) {
        Some(n) => n,
        None => "fileset"@,
    };
    lemma_sanitized_safe(raw);
}

proof fn lemma_scan_args_prefix(
    args: Seq<String>,
    extra: Seq<String>,
    i: int,
    root: Option<Seq<char>>,
    db: Option<Seq<char>>,
    kind: ScanRootKind,
    concurrent: bool,
)
    requires
        0 <= i <= args.len(),
        extra.len() > 0,
        scan_args_from(args, i, root, db, kind, concurrent) is Ok,
    ensures
        scan_args_from(args, i, root, db, kind, concurrent) matches Ok(v) && scan_args_from(
            args + extra,
            i,
            root,
            db,
            kind,
            concurrent,
        ) == scan_args_from(args + extra, args.len() as int, Some(v.0), v.1, v.2, v.3),
    decreases args.len() - i,
{
    let all = args + extra;
    if i < args.len() {
        assert(all[i] == args[i]);
        let a = args[i]@;
        if a == "--root"@ || a == "--path"@ {
            assert(all[i + 1] == args[i + 1]);
            lemma_scan_args_prefix(args, extra, i + 2, Some(args[i + 1]@), db, kind, concurrent);
        } else if a == "--db"@ {
            assert(all[i + 1] == args[i + 1]);
            lemma_scan_args_prefix(args, extra, i + 2, root, Some(args[i + 1]@), kind, concurrent);
        } else if a == "--drive"@ {
            lemma_scan_args_prefix(args, extra, i + 1, root, db, ScanRootKind::Drive, concurrent);
        } else if a == "--folder"@ {
            lemma_scan_args_prefix(args, extra, i + 1, root, db, ScanRootKind::Folder, concurrent);
        } else if a == "--single-threaded"@ {
            lemma_scan_args_prefix(args, extra, i + 1, root, db, kind, false);
        } else if a == "--concurrent"@ {
            lemma_scan_args_prefix(args, extra, i + 1, root, db, kind, true);
        }
    }
}

/// The last of `--drive` and `--folder` decides what kind of root a scan
/// has: either flag added after arguments that `scan` accepts gives the same
/// request, with the kind of root the flag names.
pub proof fn lemma_last_root_kind_flag_decides(args: Seq<String>, flag: String)
    requires
        scan_args_from(args, 0, None, None, ScanRootKind::Folder, true) is Ok,
        flag@ == "--folder"@ || flag@ == "--drive"@,
    ensures
        scan_args_from(args, 0, None, None, ScanRootKind::Folder, true) matches Ok(v) && scan_args_from(
            args.push(flag),
            0,
            None,
            None,
            ScanRootKind::Folder,
            true,
        ) == Ok::<ScanArgsView, Seq<char>>(
            (v.0, v.1, if flag@ == "--folder"@ { ScanRootKind::Folder } else { ScanRootKind::Drive }, v.3),
        ),
{
    reveal_strlit("--root");
    reveal_strlit("--path");
    reveal_strlit("--db");
    reveal_strlit("--drive");
    reveal_strlit("--folder");
    let extra = seq![flag];
    assert(args.push(flag) =~= args + extra);
    lemma_scan_args_prefix(args, extra, 0, None, None, ScanRootKind::Folder, true);
    let all = args + extra;
    let n = args.len() as int;
    assert(all[n] == flag);
    let v = scan_args_from(args, 0, None, None, ScanRootKind::Folder, true)->Ok_0;
    let k = if flag@ == "--folder"@ { ScanRootKind::Folder } else { ScanRootKind::Drive };
    assert("--root"@.len() == 6 && "--path"@.len() == 6 && "--db"@.len() == 4);
    assert("--drive"@.len() == 7 && "--folder"@.len() == 8);
    assert(flag@ != "--root"@ && flag@ != "--path"@ && flag@ != "--db"@);
    assert(flag@ == "--drive"@ ==> flag@ != "--folder"@);
    assert(scan_args_from(all, n + 1, Some(v.0), v.1, k, v.3) == Ok::<ScanArgsView, Seq<char>>((v.0, v.1, k, v.3)));
    assert(scan_args_from(all, n, Some(v.0), v.1, v.2, v.3) == scan_args_from(all, n + 1, Some(v.0), v.1, k, v.3));
}

proof fn lemma_folder_unless_drive_from(
    args: Seq<String>,
    i: int,
    root: Option<Seq<char>>,
    db: Option<Seq<char>>,
    concurrent: bool,
)
    requires
        0 <= i,
        forall|k: int| 0 <= k < args.len() ==> (#[trigger] args[k])@ != "--drive"@,
    ensures
        scan_args_from(args, i, root, db, ScanRootKind::Folder, concurrent) matches Ok(v) ==> v.2
            == ScanRootKind::Folder,
    decreases args.len() - i,
{
    if i < args.len() {
        let a = args[i]@;
        if a == "--root"@ || a == "--path"@ {
            if i + 1 < args.len() {
                lemma_folder_unless_drive_from(args, i + 2, Some(args[i + 1]@), db, concurrent);
            }
        } else if a == "--db"@ {
            if i + 1 < args.len() {
                lemma_folder_unless_drive_from(args, i + 2, root, Some(args[i + 1]@), concurrent);
            }
        } else if a == "--drive"@ {
        } else if a == "--folder"@ {
            lemma_folder_unless_drive_from(args, i + 1, root, db, concurrent);
        } else if a == "--single-threaded"@ {
            lemma_folder_unless_drive_from(args, i + 1, root, db, false);
        } else if a == "--concurrent"@ {
            lemma_folder_unless_drive_from(args, i + 1, root, db, true);
        }
    }
}

/// Without `--drive` among its arguments, a scan that `scan` accepts is a
/// scan of a folder.
pub proof fn lemma_folder_unless_drive(args: Seq<String>)
    requires
        forall|k: int| 0 <= k < args.len() ==> (#[trigger] args[k])@ != "--drive"@,
    ensures
        scan_args_from(args, 0, None, None, ScanRootKind::Folder, true) matches Ok(v) ==> v.2
            == ScanRootKind::Folder,
{
    lemma_folder_unless_drive_from(args, 0, None, None, true);
}

/// The flags of `matches` whose value may be left out: where one comes
/// last, it reads the argument added after it as its value.
pub open spec fn takes_optional_value(a: Seq<char>) -> bool {
    a == "--max-files"@ || a == "--ahash"@ || a == "--dhash"@ || a == "--phash"@
}

proof fn lemma_matches_args_prefix(
    args: Seq<String>,
    extra: Seq<String>,
    i: int,
    db: Option<Seq<char>>,
    max_files: usize,
    mode: MatchMode,
    tui: Option<bool>,
    t: HashThresholds,
)
    requires
        0 <= i <= args.len(),
        extra.len() > 0,
        args.len() > 0 ==> !takes_optional_value(args.last()@),
        matches_args_from(args, i, db, max_files, mode, tui, t) is Ok,
    ensures
        matches_args_from(args, i, db, max_files, mode, tui, t) matches Ok(v) && matches_args_from(
            args + extra,
            i,
            db,
            max_files,
            mode,
            tui,
            t,
        ) == matches_args_from(args + extra, args.len() as int, Some(v.0), v.1, v.2, v.3, v.4),
    decreases args.len() - i,
{
    let all = args + extra;
    if i < args.len() {
        assert(all[i] == args[i]);
        let a = args[i]@;
        let has_value = i + 1 < args.len();
        if has_value {
            assert(all[i + 1] == args[i + 1]);
        } else {
            assert(args.last() == args[i]);
        }
        let v = args[i + 1]@;
        if a == "--db"@ {
            if has_value {
                lemma_matches_args_prefix(args, extra, i + 2, Some(v), max_files, mode, tui, t);
            } else {
                lemma_matches_args_prefix(args, extra, i + 1, None, max_files, mode, tui, t);
            }
        } else if a == "--mode"@ {
            if has_value {
                lemma_matches_args_prefix(args, extra, i + 2, db, max_files, mode_named(v)->0, tui, t);
            }
        } else if a == "--all"@ {
            lemma_matches_args_prefix(args, extra, i + 1, db, max_files, MatchMode::All, tui, t);
        } else if a == "--similar"@ {
            lemma_matches_args_prefix(args, extra, i + 1, db, max_files, MatchMode::Similar, tui, t);
        } else if a == "--exact"@ {
            lemma_matches_args_prefix(args, extra, i + 1, db, max_files, MatchMode::Exact, tui, t);
        } else if a == "--tui"@ {
            lemma_matches_args_prefix(args, extra, i + 1, db, max_files, mode, Some(true), t);
        } else if a == "--plain"@ {
            lemma_matches_args_prefix(args, extra, i + 1, db, max_files, mode, Some(false), t);
        } else if a == "--max-files"@ {
            let x = parse_unsigned(v, usize::MAX as nat);
            lemma_matches_args_prefix(args, extra, i + 2, db, x->0 as usize, mode, tui, t);
        } else if a == "--ahash"@ {
            let x = parse_unsigned(v, u32::MAX as nat);
            lemma_matches_args_prefix(args, extra, i + 2, db, max_files, mode, tui, HashThresholds { ahash: x->0 as u32, ..t });
        } else if a == "--dhash"@ {
            let x = parse_unsigned(v, u32::MAX as nat);
            lemma_matches_args_prefix(args, extra, i + 2, db, max_files, mode, tui, HashThresholds { dhash: x->0 as u32, ..t });
        } else if a == "--phash"@ {
            let x = parse_unsigned(v, u32::MAX as nat);
            lemma_matches_args_prefix(args, extra, i + 2, db, max_files, mode, tui, HashThresholds { phash: x->0 as u32, ..t });
        }
    }
}

/// The last mode flag decides which groups `matches` shows: `--all`,
/// `--similar` or `--exact` added after arguments that `matches` accepts
/// gives the same request with the mode the flag names, and so does
/// `--mode` with that mode's name. (A flag whose value may be left out,
/// coming last, would take the added argument as its value instead.)
pub proof fn lemma_last_mode_flag_decides(args: Seq<String>, flag: String, name: String)
    requires
        matches_args_from(args, 0, None, 500, MatchMode::All, None, default_thresholds()) is Ok,
        args.len() > 0 ==> !takes_optional_value(args.last()@),
        flag@ == "--all"@ || flag@ == "--similar"@ || flag@ == "--exact"@,
        name@ == flag@.skip(2),
    ensures
        matches_args_from(args, 0, None, 500, MatchMode::All, None, default_thresholds()) matches Ok(v) && {
            let m = if flag@ == "--all"@ {
                MatchMode::All
            } else if flag@ == "--similar"@ {
                MatchMode::Similar
            } else {
                MatchMode::Exact
            };
            let expected = Ok::<MatchesArgsView, Seq<char>>((v.0, v.1, m, v.3, v.4));
            &&& matches_args_from(args.push(flag), 0, None, 500, MatchMode::All, None, default_thresholds())
                == expected
            &&& forall|mode_flag: String|
                mode_flag@ == "--mode"@ ==> matches_args_from(
                    args + seq![mode_flag, name],
                    0,
                    None,
                    500,
                    MatchMode::All,
                    None,
                    default_thresholds(),
                ) == expected
        },
{
    reveal_strlit("--db");
    reveal_strlit("--mode");
    reveal_strlit("--all");
    reveal_strlit("--similar");
    reveal_strlit("--exact");
    reveal_strlit("all");
    reveal_strlit("similar");
    reveal_strlit("exact");
    let d = default_thresholds();
    let v = matches_args_from(args, 0, None, 500, MatchMode::All, None, d)->Ok_0;
    let n = args.len() as int;
    let m = if flag@ == "--all"@ {
        MatchMode::All
    } else if flag@ == "--similar"@ {
        MatchMode::Similar
    } else {
        MatchMode::Exact
    };
    assert("--db"@.len() == 4 && "--mode"@.len() == 6 && "--all"@.len() == 5);
    assert("--similar"@.len() == 9 && "--exact"@.len() == 7);
    assert(flag@ != "--db"@ && flag@ != "--mode"@);
    assert(flag@ == "--all"@ ==> flag@ != "--similar"@ && flag@ != "--exact"@);
    assert(flag@ == "--similar"@ ==> flag@ != "--exact"@);
    let one = seq![flag];
    assert(args.push(flag) =~= args + one);
    lemma_matches_args_prefix(args, one, 0, None, 500, MatchMode::All, None, d);
    let all = args + one;
    assert(all[n] == flag);
    assert(matches_args_from(all, n + 1, Some(v.0), v.1, m, v.3, v.4) == Ok::<MatchesArgsView, Seq<char>>(
        (v.0, v.1, m, v.3, v.4),
    ));
    assert(matches_args_from(all, n, Some(v.0), v.1, v.2, v.3, v.4) == matches_args_from(
        all,
        n + 1,
        Some(v.0),
        v.1,
        m,
        v.3,
        v.4,
    ));
    assert("--all"@.skip(2) =~= "all"@);
    assert("--similar"@.skip(2) =~= "similar"@);
    assert("--exact"@.skip(2) =~= "exact"@);
    assert("all"@.len() == 3 && "similar"@.len() == 7 && "exact"@.len() == 5);
    assert(ascii_lower_seq(name@) =~= name@);
    assert(mode_named(name@) == Some(m));
    assert forall|mode_flag: String| mode_flag@ == "--mode"@ implies matches_args_from(
        args + seq![mode_flag, name],
        0,
        None,
        500,
        MatchMode::All,
        None,
        d,
    ) == Ok::<MatchesArgsView, Seq<char>>((v.0, v.1, m, v.3, v.4)) by {
        let two = seq![mode_flag, name];
        lemma_matches_args_prefix(args, two, 0, None, 500, MatchMode::All, None, d);
        let both = args + two;
        assert(both[n] == mode_flag && both[n + 1] == name);
        assert(matches_args_from(both, n + 2, Some(v.0), v.1, m, v.3, v.4) == Ok::<MatchesArgsView, Seq<char>>(
            (v.0, v.1, m, v.3, v.4),
        ));
    }
}

} // verus!
