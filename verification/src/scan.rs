//! The decisions of a scan.
//!
//! Walking the directory tree, reading files, running `ffprobe` and `ffmpeg`
//! and writing rows is the caller's part. For each event of the walk the
//! caller asks this module what to do and hands it what came back; the
//! counters, the choice of which hashes and snapshots a file gets, the record
//! written for it and the fileset's metadata are decided here.

use vstd::prelude::*;
use std::sync::Arc;
use std::sync::atomic::AtomicBool;
use crate::kinds::{is_image, is_image_file, is_video, is_video_file, opt_str};
use crate::error::Error;
use crate::models::{DriveMetadata, FilesetMetadata, MediaFileRecord, ScanResult, ScanRootKind, ScanStats};
use crate::paths::{file_name, parent, path_file_name, path_parent, path_strip_prefix, strip_prefix};
use crate::text::opt_chars;

verus! {

/// What a scan does.
#[derive(Debug, Clone)]
pub struct ScanConfig {
    pub root: String,
    pub root_kind: ScanRootKind,
    pub hash_files: bool,
    pub perceptual_hashes: bool,
    pub capture_snapshots: bool,
    pub snapshots_per_video: u32,
    pub snapshot_max_dim: u32,
    /// Whether the scan may process files concurrently.
    pub concurrent_processing: bool,
}

impl ScanConfig {
    /// A full scan of a folder: content digests, perceptual hashes, and three
    /// snapshots of at most 1024 pixels per video, files processed
    /// concurrently.
    pub fn for_folder(root: String) -> (c: ScanConfig)
        ensures
            c.root == root,
            c.root_kind == ScanRootKind::Folder,
            c.hash_files,
            c.perceptual_hashes,
            c.capture_snapshots,
            c.snapshots_per_video == 3,
            c.snapshot_max_dim == 1024,
            c.concurrent_processing,
    {
        ScanConfig {
            root,
            root_kind: ScanRootKind::Folder,
            hash_files: true,
            perceptual_hashes: true,
            capture_snapshots: true,
            snapshots_per_video: 3,
            snapshot_max_dim: 1024,
            concurrent_processing: true,
        }
    }
}

/// A flag that asks a running scan to stop; clones share the flag.
#[derive(Clone, Debug)]
pub struct ScanCancelToken {
    cancelled: Arc<AtomicBool>,
}

impl ScanCancelToken {
    pub fn new() -> ScanCancelToken {
        ScanCancelToken { cancelled: Arc::new(AtomicBool::new(false)) }
    }

    /// Asks every holder of the flag to stop.
    pub fn cancel(&self) {
        self.cancelled.store(true, std::sync::atomic::Ordering::SeqCst);
    }

    /// Whether a stop was asked for; another thread may ask at any time, so
    /// nothing is promised of the answer.
    pub fn is_cancelled(&self) -> bool {
        self.cancelled.load(std::sync::atomic::Ordering::SeqCst)
    }
}

/// Totals found by a prescan.
#[derive(Debug, Clone, Copy)]
pub struct ScanTotals {
    pub files: u64,
    pub bytes: u64,
}

impl Default for ScanTotals {
    fn default() -> (t: ScanTotals)
        ensures
            t.files == 0,
            t.bytes == 0,
    {
        ScanTotals { files: 0, bytes: 0 }
    }
}

/// Where a scan stands after a file.
#[derive(Debug, Clone)]
pub struct ScanProgress {
    pub files_seen: u64,
    pub files_hashed: u64,
    pub files_skipped: u64,
    pub bytes_seen: u64,
    pub total_files: u64,
    pub total_bytes: u64,
    pub current_path: String,
}

/// Where a prescan stands after an entry.
#[derive(Debug, Clone)]
pub struct PrescanProgress {
    pub files_seen: u64,
    pub bytes_seen: u64,
    pub dirs_seen: u64,
    pub current_path: String,
}


/// What became of a regular file that the walk reached.
pub enum FileOutcome {
    /// Its metadata could not be read; it was skipped.
    MetadataUnreadable,
    /// It was read: its size, and for each digest whether it was computed
    /// (none where hashing was not attempted).
    Read { len: u64, blake3_ok: Option<bool>, sha256_ok: Option<bool> },
}

pub open spec fn failed(o: Option<bool>) -> int {
    if o == Some(false) {
        1
    } else {
        0
    }
}

pub open spec fn succeeded(o: Option<bool>) -> int {
    if o == Some(true) {
        1
    } else {
        0
    }
}

/// The error a scan or prescan fails with when its root does not exist.
pub fn root_missing(root: &str) -> (e: Error)
    ensures
        e matches Error::InvalidArgument(m) && m@ == "root does not exist: "@ + root@,
{
    let mut v: Vec<char> = Vec::new();
    crate::text::append_str(&mut v, "root does not exist: ");
    crate::text::append_str(&mut v, root);
    Error::InvalidArgument(crate::text::string_from_chars(v.as_slice()))
}

/// What a scan does before the next entry of its walk.
#[derive(Debug, Clone, Copy, PartialEq, Eq, Structural)]
pub enum EntryStep {
    /// A stop was asked for.
    Cancel,
    /// A counter has no room for another entry; the scan ends here.
    Finish,
    /// The entry is dealt with.
    Proceed,
}

/// The counters of a running scan.
pub struct ScanState {
    pub stats: ScanStats,
    pub bytes_seen: u64,
    pub totals: ScanTotals,
    /// The sum of the sizes of all files read, without a cap.
    pub bytes_total: Ghost<int>,
}

impl ScanState {
    /// Its invariant: at most as many files hashed as seen, and the bytes
    /// seen are the capped sum of the sizes read.
    pub open spec fn wf(&self) -> bool {
        &&& self.stats.files_hashed <= self.stats.files_seen
        &&& self.bytes_total@ >= 0
        &&& self.bytes_seen == (if self.bytes_total@ > u64::MAX { u64::MAX as int } else { self.bytes_total@ })
    }

    /// Room in every counter for one more file.
    pub open spec fn has_room(&self) -> bool {
        &&& self.stats.files_seen < u64::MAX
        &&& self.stats.files_hashed < u64::MAX
        &&& self.stats.files_skipped < u64::MAX - 2
    }

    pub fn can_count_more(&self) -> (r: bool)
        ensures
            r == self.has_room(),
    {
        self.stats.files_seen < u64::MAX && self.stats.files_hashed < u64::MAX
            && self.stats.files_skipped < u64::MAX - 2
    }

    /// The state at the start of a scan, with the totals of a prescan if
    /// one was made.
    pub fn start(totals: Option<ScanTotals>) -> (s: ScanState)
        ensures
            s.wf(),
            s.stats.files_seen == 0,
            s.stats.files_hashed == 0,
            s.stats.files_skipped == 0,
            s.bytes_seen == 0,
            s.bytes_total@ == 0,
            s.totals == (match totals {
                Some(t) => t,
                None => ScanTotals { files: 0, bytes: 0 },
            }),
    {
        let totals = match totals {
            Some(t) => t,
            None => ScanTotals::default(),
        };
        ScanState {
            stats: ScanStats { files_seen: 0, files_hashed: 0, files_skipped: 0 },
            bytes_seen: 0,
            totals,
            bytes_total: Ghost(0),
        }
    }

    /// An entry of the walk could not be read.
    pub fn on_walk_error(&mut self)
        requires
            old(self).wf(),
            old(self).has_room(),
        ensures
            final(self).wf(),
            scan_step(*old(self), WalkEntry::Unreadable, *final(self)),
            final(self).stats.files_skipped == old(self).stats.files_skipped + 1,
            final(self).stats.files_seen == old(self).stats.files_seen,
            final(self).stats.files_hashed == old(self).stats.files_hashed,
            final(self).bytes_seen == old(self).bytes_seen,
            final(self).bytes_total == old(self).bytes_total,
            final(self).totals == old(self).totals,
    {
        self.stats.files_skipped = self.stats.files_skipped + 1;
    }

    /// A regular file was reached and dealt with.
    pub fn on_file(&mut self, outcome: &FileOutcome)
        requires
            old(self).wf(),
            old(self).has_room(),
        ensures
            final(self).wf(),
            final(self).totals == old(self).totals,
            scan_step(*old(self), WalkEntry::File, *final(self)),
            final(self).stats.files_seen == old(self).stats.files_seen + 1,
            match *outcome {
                FileOutcome::MetadataUnreadable => {
                    &&& final(self).stats.files_skipped == old(self).stats.files_skipped + 1
                    &&& final(self).stats.files_hashed == old(self).stats.files_hashed
                    &&& final(self).bytes_total == old(self).bytes_total
                },
                FileOutcome::Read { len, blake3_ok, sha256_ok } => {
                    &&& final(self).stats.files_skipped == old(self).stats.files_skipped
                        + failed(blake3_ok) + failed(sha256_ok)
                    &&& final(self).stats.files_hashed == old(self).stats.files_hashed
                        + succeeded(sha256_ok)
                    &&& final(self).bytes_total@ == old(self).bytes_total@ + len
                },
            },
    {
        self.stats.files_seen = self.stats.files_seen + 1;
        match outcome {
            FileOutcome::MetadataUnreadable => {
                self.stats.files_skipped = self.stats.files_skipped + 1;
            },
            FileOutcome::Read { len, blake3_ok, sha256_ok } => {
                self.bytes_seen = self.bytes_seen.saturating_add(*len);
                self.bytes_total = Ghost(self.bytes_total@ + *len);
                if *blake3_ok == Some(false) {
                    self.stats.files_skipped = self.stats.files_skipped + 1;
                }
                match sha256_ok {
                    Some(true) => {
                        self.stats.files_hashed = self.stats.files_hashed + 1;
                    },
                    Some(false) => {
                        self.stats.files_skipped = self.stats.files_skipped + 1;
                    },
                    None => {},
                }
            },
        }
    }

    /// What to do before the next entry of the walk: stop where a stop was
    /// asked for, finish where a counter has no room left, else go on.
    pub fn next_step(&self, cancelled: bool) -> (r: EntryStep)
        ensures
            r == (if cancelled {
                EntryStep::Cancel
            } else if !self.has_room() {
                EntryStep::Finish
            } else {
                EntryStep::Proceed
            }),
    {
        if cancelled {
            EntryStep::Cancel
        } else if !self.can_count_more() {
            EntryStep::Finish
        } else {
            EntryStep::Proceed
        }
    }

    /// How the scan ends: a stopped scan leaves its fileset incomplete and
    /// fails as cancelled; a finished one leaves it completed and gives its
    /// counters.
    pub fn outcome(&self, cancelled: bool) -> (r: (ScanEnd, Result<ScanResult, Error>))
        ensures
            cancelled ==> (r.0 == ScanEnd::Incomplete && (r.1 matches Err(Error::Cancelled))),
            !cancelled ==> (r.0 == ScanEnd::Completed && (r.1 matches Ok(res) && res.stats == self.stats)),
    {
        if cancelled {
            (ScanEnd::Incomplete, Err(Error::Cancelled))
        } else {
            (ScanEnd::Completed, Ok(ScanResult { stats: self.stats }))
        }
    }

    /// The progress report after the file at `path`.
    pub fn progress(&self, path: String) -> (p: ScanProgress)
        ensures
            p.files_seen == self.stats.files_seen,
            p.files_hashed == self.stats.files_hashed,
            p.files_skipped == self.stats.files_skipped,
            p.bytes_seen == self.bytes_seen,
            p.total_files == self.totals.files,
            p.total_bytes == self.totals.bytes,
            p.current_path == path,
    {
        ScanProgress {
            files_seen: self.stats.files_seen,
            files_hashed: self.stats.files_hashed,
            files_skipped: self.stats.files_skipped,
            bytes_seen: self.bytes_seen,
            total_files: self.totals.files,
            total_bytes: self.totals.bytes,
            current_path: path,
        }
    }
}

/// The bytes seen never go down as files are read: the capped sum grows
/// with the sum.
pub proof fn lemma_bytes_seen_grow(before: ScanState, after: ScanState)
    requires
        before.wf(),
        after.wf(),
        after.bytes_total@ >= before.bytes_total@,
    ensures
        after.bytes_seen >= before.bytes_seen,
{
}

/// Whether a file is linked elsewhere (a symbolic link, or a file with more
/// than one hard link); such files are recorded but neither hashed nor
/// perceptually hashed.
pub fn is_linked_file(is_symlink: bool, hard_links: u64) -> (r: bool)
    ensures
        r == (is_symlink || hard_links > 1),
{
    is_symlink || hard_links > 1
}

/// Which of the costly steps a file gets.
#[derive(Debug, Clone, Copy)]
pub struct FilePlan {
    pub perceptual_hashes: bool,
    pub content_digests: bool,
}

/// The plan for a file: perceptual hashes for an image that is not linked,
/// where the scan asks for them; content digests for a file that is not
/// linked, where the scan asks for them.
pub fn plan_file(config: &ScanConfig, linked: bool, path: &str, file_type: Option<&str>) -> (p: FilePlan)
    ensures
        p.perceptual_hashes == (config.perceptual_hashes && !linked && is_image(path@, opt_str(file_type))),
        p.content_digests == (config.hash_files && !linked),
{
    let perceptual = config.perceptual_hashes && !linked && is_image_file(path, file_type);
    FilePlan { perceptual_hashes: perceptual, content_digests: config.hash_files && !linked }
}

/// Whether to take snapshots of a file: the scan asks for at least one per
/// video, the file is a video, and `ffprobe` gave its duration.
pub fn wants_snapshots(config: &ScanConfig, path: &str, file_type: Option<&str>, duration_ms: Option<i64>) -> (r: bool)
    ensures
        r == (config.capture_snapshots && config.snapshots_per_video > 0 && is_video(path@, opt_str(file_type))
            && duration_ms is Some),
{
    config.capture_snapshots && config.snapshots_per_video > 0 && is_video_file(path, file_type)
        && duration_ms.is_some()
}

/// The value of a step that the plan asked for, else what was there.
pub open spec fn if_asked<T>(asked: bool, got: Option<T>, before: Option<T>) -> Option<T> {
    if asked {
        got
    } else {
        before
    }
}

/// Whether a step the plan asked for succeeded; none where it was not asked.
pub open spec fn attempt(asked: bool, got: bool) -> Option<bool> {
    if asked {
        Some(got)
    } else {
        None
    }
}

/// A file's record once its costly steps are done, and what became of it.
/// `image_hashes` is the (ahash, dhash, phash) of the file where it decoded,
/// and `blake3` and `sha256` its digests where it could be read; each counts
/// only where the plan asked for it. The record takes what came back; the
/// outcome says, for each digest asked for, whether it was computed.
pub fn file_read(
    rec: MediaFileRecord,
    plan: FilePlan,
    len: u64,
    image_hashes: Option<(u64, u64, u64)>,
    blake3: Option<[u8; 32]>,
    sha256: Option<[u8; 32]>,
) -> (r: (MediaFileRecord, FileOutcome))
    ensures
        r.0 == (MediaFileRecord {
            ahash: if plan.perceptual_hashes && image_hashes is Some { Some(image_hashes.unwrap().0) } else { rec.ahash },
            dhash: if plan.perceptual_hashes && image_hashes is Some { Some(image_hashes.unwrap().1) } else { rec.dhash },
            phash: if plan.perceptual_hashes && image_hashes is Some { Some(image_hashes.unwrap().2) } else { rec.phash },
            blake3: if_asked(plan.content_digests, blake3, rec.blake3),
            sha256: if_asked(plan.content_digests, sha256, rec.sha256),
            ..rec
        }),
        r.1 == (FileOutcome::Read {
            len,
            blake3_ok: attempt(plan.content_digests, blake3 is Some),
            sha256_ok: attempt(plan.content_digests, sha256 is Some),
        }),
{
    let mut rec = rec;
    if plan.perceptual_hashes {
        match image_hashes {
            Some((a, d, p)) => {
                rec.ahash = Some(a);
                rec.dhash = Some(d);
                rec.phash = Some(p);
            },
            None => {},
        }
    }
    let mut blake3_ok: Option<bool> = None;
    let mut sha256_ok: Option<bool> = None;
    if plan.content_digests {
        blake3_ok = Some(blake3.is_some());
        sha256_ok = Some(sha256.is_some());
        rec.blake3 = blake3;
        rec.sha256 = sha256;
    }
    (rec, FileOutcome::Read { len, blake3_ok, sha256_ok })
}

/// The stored path of a file: relative to the root where the root is a
/// prefix of it, else as given.
pub open spec fn stored_path(root: Seq<char>, path: Seq<char>) -> Seq<char> {
    match strip_prefix(path, root) {
        Some(rel) => rel,
        None => path,
    }
}

/// `path` relative to `root`, where `root` is a prefix of it.
pub fn relative_to_root(root: &str, path: &str) -> (r: Option<String>)
    ensures
        opt_chars(r) == strip_prefix(path@, root@),
{
    path_strip_prefix(path, root)
}

/// The record of a file just reached, before any digest is computed.
pub fn new_file_record(config: &ScanConfig, path: &str, size_bytes: u64, modified_at: Option<u64>) -> (r: MediaFileRecord)
    ensures
        r.file_id is None,
        r.path@ == stored_path(config.root@, path@),
        r.size_bytes == size_bytes,
        r.modified_at == modified_at,
        r.blake3 is None && r.sha256 is None,
        r.ahash is None && r.dhash is None && r.phash is None,
        r.ffmpeg_metadata is None && r.file_type is None,
{
    let stored = match relative_to_root(config.root.as_str(), path) {
        Some(rel) => rel,
        None => crate::text::string_from_chars(crate::text::chars_of(path).as_slice()),
    };
    MediaFileRecord {
        file_id: None,
        path: stored,
        size_bytes,
        modified_at,
        blake3: None,
        sha256: None,
        ahash: None,
        dhash: None,
        phash: None,
        ffmpeg_metadata: None,
        file_type: None,
    }
}

/// The name of a fileset: the root's file name where it has a non-empty
/// one, else the root as given.
pub open spec fn fileset_name(root: Seq<char>) -> Seq<char> {
    match file_name(root) {
        Some(n) => if n.len() > 0 { n } else { root },
        None => root,
    }
}

pub fn fileset_name_from_root(root: &str) -> (r: String)
    ensures
        r@ == fileset_name(root@),
{
    match path_file_name(root) {
        Some(n) => {
            if n.as_str().is_empty() {
                crate::text::string_from_chars(crate::text::chars_of(root).as_slice())
            } else {
                n
            }
        },
        None => crate::text::string_from_chars(crate::text::chars_of(root).as_slice()),
    }
}

/// The parent recorded for a root: its parent for a folder, none for a
/// drive.
pub open spec fn root_parent(config: ScanConfig) -> Option<Seq<char>> {
    if config.root_kind == ScanRootKind::Folder {
        parent(config.root@)
    } else {
        None
    }
}

fn root_parent_exec(config: &ScanConfig) -> (r: Option<String>)
    ensures
        opt_chars(r) == root_parent(*config),
{
    if config.root_kind == ScanRootKind::Folder {
        path_parent(config.root.as_str())
    } else {
        None
    }
}

/// What the host says of itself: its operating system, that system's
/// version, and the application's version.
#[derive(Debug, Clone)]
pub struct HostInfo {
    pub os: String,
    pub os_version: String,
    pub app_version: String,
}

/// The metadata a scan starts a fileset with: empty status, description and
/// notes, named after the root.
pub open spec fn fresh_metadata(config: ScanConfig, drive: DriveMetadata, created_at: u64, host: HostInfo, m: FilesetMetadata) -> bool {
    &&& fresh_fields(config, drive, created_at, host, m)
    &&& m.status@ == Seq::<char>::empty()
}

/// A fresh fileset's metadata, but for its status.
pub open spec fn fresh_fields(config: ScanConfig, drive: DriveMetadata, created_at: u64, host: HostInfo, m: FilesetMetadata) -> bool {
    &&& m.created_at == created_at
    &&& m.root_kind == config.root_kind
    &&& m.root_path@ == config.root@
    &&& opt_chars(m.root_parent_path) == root_parent(config)
    &&& m.drive == drive
    &&& m.host_os == host.os
    &&& m.host_os_version == host.os_version
    &&& m.app_version == host.app_version
    &&& m.name@ == fileset_name(config.root@)
    &&& m.description@ == Seq::<char>::empty()
    &&& m.notes@ == Seq::<char>::empty()
}

pub fn initial_fileset_metadata(config: &ScanConfig, drive: DriveMetadata, created_at: u64, host: HostInfo) -> (m: FilesetMetadata)
    ensures
        fresh_metadata(*config, drive, created_at, host, m),
{
    FilesetMetadata {
        created_at,
        root_kind: config.root_kind,
        root_path: config.root.clone(),
        root_parent_path: root_parent_exec(config),
        drive,
        host_os: host.os,
        host_os_version: host.os_version,
        app_version: host.app_version,
        status: String::new(),
        name: fileset_name_from_root(config.root.as_str()),
        description: String::new(),
        notes: String::new(),
    }
}

/// How a scan ended, for the status recorded in the fileset.
pub enum ScanEnd {
    Completed,
    Incomplete,
}

pub open spec fn end_status(e: ScanEnd) -> Seq<char> {
    match e {
        ScanEnd::Completed => seq!['c', 'o', 'm', 'p', 'l', 'e', 't', 'e', 'd'],
        ScanEnd::Incomplete => seq!['i', 'n', 'c', 'o', 'm', 'p', 'l', 'e', 't', 'e'],
    }
}

pub fn end_status_text(e: ScanEnd) -> (r: String)
    ensures
        r@ == end_status(e),
{
    let v: Vec<char> = match e {
        ScanEnd::Completed => {
            let a = ['c', 'o', 'm', 'p', 'l', 'e', 't', 'e', 'd'];
            crate::text::chars_sub(&a, 0, 9)
        },
        ScanEnd::Incomplete => {
            let a = ['i', 'n', 'c', 'o', 'm', 'p', 'l', 'e', 't', 'e'];
            crate::text::chars_sub(&a, 0, 10)
        },
    };
    assert(v@ =~= end_status(e));
    crate::text::string_from_chars(v.as_slice())
}

/// The metadata a fileset is left with when a scan ends: what it holds,
/// or where it holds nothing what a fresh scan would start it with (with no
/// drive known), with the end's status.
pub fn ended_metadata(
    stored: Option<FilesetMetadata>,
    config: &ScanConfig,
    now: u64,
    host: HostInfo,
    end: ScanEnd,
) -> (m: FilesetMetadata)
    ensures
        m.status@ == end_status(end),
        match stored {
            Some(s) => m == (FilesetMetadata { status: m.status, ..s }),
            None => fresh_fields(*config, DriveMetadata { id: None, label: None, fs_type: None }, now, host, m),
        },
{
    let mut meta = match stored {
        Some(s) => s,
        None => initial_fileset_metadata(
            config,
            DriveMetadata { id: None, label: None, fs_type: None },
            now,
            host,
        ),
    };
    meta.status = end_status_text(end);
    meta
}

/// The counters of a prescan.
pub struct PrescanState {
    pub files: u64,
    pub bytes: u64,
    pub dirs: u64,
    pub bytes_total: Ghost<int>,
}

impl PrescanState {
    pub open spec fn wf(&self) -> bool {
        &&& self.bytes_total@ >= 0
        &&& self.bytes == (if self.bytes_total@ > u64::MAX { u64::MAX as int } else { self.bytes_total@ })
    }

    pub fn new() -> (s: PrescanState)
        ensures
            s.wf(),
            s.files == 0 && s.bytes == 0 && s.dirs == 0,
    {
        PrescanState { files: 0, bytes: 0, dirs: 0, bytes_total: Ghost(0) }
    }

    pub fn can_count_more(&self) -> (r: bool)
        ensures
            r == (self.files < u64::MAX && self.dirs < u64::MAX),
    {
        self.files < u64::MAX && self.dirs < u64::MAX
    }

    /// A directory was reached; the progress report to give.
    pub fn on_dir(&mut self, path: String) -> (p: PrescanProgress)
        requires
            old(self).wf(),
            old(self).dirs < u64::MAX,
        ensures
            final(self).wf(),
            prescan_step(*old(self), WalkEntry::Dir, *final(self)),
            final(self).dirs == old(self).dirs + 1,
            final(self).files == old(self).files,
            final(self).bytes == old(self).bytes,
            final(self).bytes_total == old(self).bytes_total,
            p.files_seen == final(self).files,
            p.bytes_seen == final(self).bytes,
            p.dirs_seen == final(self).dirs,
            p.current_path == path,
    {
        self.dirs = self.dirs + 1;
        PrescanProgress { files_seen: self.files, bytes_seen: self.bytes, dirs_seen: self.dirs, current_path: path }
    }

    /// A regular file was reached, of the given size where its metadata
    /// could be read; the progress report to give.
    pub fn on_file(&mut self, len: Option<u64>, path: String) -> (p: PrescanProgress)
        requires
            old(self).wf(),
            old(self).files < u64::MAX,
        ensures
            final(self).wf(),
            prescan_step(*old(self), WalkEntry::File, *final(self)),
            final(self).files == old(self).files + 1,
            final(self).dirs == old(self).dirs,
            final(self).bytes_total@ == old(self).bytes_total@ + (match len {
                Some(l) => l as int,
                None => 0,
            }),
            p.files_seen == final(self).files,
            p.bytes_seen == final(self).bytes,
            p.dirs_seen == final(self).dirs,
            p.current_path == path,
    {
        self.files = self.files + 1;
        if let Some(l) = len {
            self.bytes = self.bytes.saturating_add(l);
            self.bytes_total = Ghost(self.bytes_total@ + l);
        }
        PrescanProgress { files_seen: self.files, bytes_seen: self.bytes, dirs_seen: self.dirs, current_path: path }
    }

    pub fn totals(&self) -> (t: ScanTotals)
        ensures
            t.files == self.files,
            t.bytes == self.bytes,
    {
        ScanTotals { files: self.files, bytes: self.bytes }
    }
}

/// What the walk of a scan's root meets, entry by entry: an entry that
/// cannot be read, a directory, a regular file, or anything else (a
/// symbolic link, a device).
pub enum WalkEntry {
    Unreadable,
    Dir,
    File,
    Other,
}

/// The number of regular files in a walk.
pub open spec fn regular_files(walk: Seq<WalkEntry>) -> nat
    decreases walk.len(),
{
    if walk.len() == 0 {
        0
    } else {
        regular_files(walk.drop_last()) + if walk.last() is File {
            1nat
        } else {
            0nat
        }
    }
}

/// A scan's state before and after an entry: `on_file` for a regular
/// file, `on_walk_error` for an unreadable entry, nothing otherwise.
pub open spec fn scan_step(before: ScanState, e: WalkEntry, after: ScanState) -> bool {
    match e {
        WalkEntry::File => after.stats.files_seen == before.stats.files_seen + 1,
        WalkEntry::Unreadable => after.stats.files_seen == before.stats.files_seen,
        _ => after == before,
    }
}

/// A prescan's state before and after an entry: `on_file` for a regular
/// file, `on_dir` for a directory, nothing otherwise.
pub open spec fn prescan_step(before: PrescanState, e: WalkEntry, after: PrescanState) -> bool {
    match e {
        WalkEntry::File => after.files == before.files + 1,
        WalkEntry::Dir => after.files == before.files,
        _ => after == before,
    }
}

proof fn lemma_scan_files(walk: Seq<WalkEntry>, scans: Seq<ScanState>)
    requires
        scans.len() == walk.len() + 1,
        scans[0].stats.files_seen == 0,
        forall|i: int| 0 <= i < walk.len() ==> #[trigger] scan_step(scans[i], walk[i], scans[i + 1]),
    ensures
        scans.last().stats.files_seen == regular_files(walk),
    decreases walk.len(),
{
    if walk.len() > 0 {
        let n = walk.len() - 1;
        lemma_scan_files(walk.drop_last(), scans.drop_last());
        assert(scan_step(scans[n], walk[n], scans[n + 1]));
    }
}

proof fn lemma_prescan_files(walk: Seq<WalkEntry>, prescans: Seq<PrescanState>)
    requires
        prescans.len() == walk.len() + 1,
        prescans[0].files == 0,
        forall|i: int| 0 <= i < walk.len() ==> #[trigger] prescan_step(prescans[i], walk[i], prescans[i + 1]),
    ensures
        prescans.last().files == regular_files(walk),
    decreases walk.len(),
{
    if walk.len() > 0 {
        let n = walk.len() - 1;
        lemma_prescan_files(walk.drop_last(), prescans.drop_last());
        assert(prescan_step(prescans[n], walk[n], prescans[n + 1]));
    }
}

/// A scan that goes through a walk to its end sees as many files as a
/// prescan of the same walk counts: both count its regular files, and
/// nothing else.
pub proof fn lemma_scan_sees_prescanned_files(
    walk: Seq<WalkEntry>,
    scans: Seq<ScanState>,
    prescans: Seq<PrescanState>,
)
    requires
        scans.len() == walk.len() + 1,
        prescans.len() == walk.len() + 1,
        scans[0].stats.files_seen == 0,
        prescans[0].files == 0,
        forall|i: int| 0 <= i < walk.len() ==> #[trigger] scan_step(scans[i], walk[i], scans[i + 1]),
        forall|i: int| 0 <= i < walk.len() ==> #[trigger] prescan_step(prescans[i], walk[i], prescans[i + 1]),
    ensures
        scans.last().stats.files_seen == regular_files(walk),
        prescans.last().files == regular_files(walk),
{
    lemma_scan_files(walk, scans);
    lemma_prescan_files(walk, prescans);
}

} // verus!
