//! The data model of a scanned fileset.
//!
//! Paths are kept as strings; times are kept as whole seconds since the Unix
//! epoch.

use vstd::prelude::*;

verus! {

/// Whether a scan's root is a folder or a whole drive.
#[derive(Debug, Clone, Copy, PartialEq, Eq, Structural)]
pub enum ScanRootKind {
    Folder,
    Drive,
}

/// What is known of the drive that holds a scan's root.
#[derive(Debug, Clone)]
pub struct DriveMetadata {
    pub id: Option<String>,
    pub label: Option<String>,
    pub fs_type: Option<String>,
}

/// One file of a fileset, as the scanner records it.
#[derive(Debug, Clone)]
pub struct MediaFileRecord {
    pub file_id: Option<i64>,
    /// The path relative to the scan's root.
    pub path: String,
    pub size_bytes: u64,
    /// Last modification, in seconds since the Unix epoch.
    pub modified_at: Option<u64>,
    pub blake3: Option<[u8; 32]>,
    pub sha256: Option<[u8; 32]>,
    pub ahash: Option<u64>,
    pub dhash: Option<u64>,
    pub phash: Option<u64>,
    pub ffmpeg_metadata: Option<String>,
    pub file_type: Option<String>,
}

/// A still image taken from a video.
#[derive(Debug, Clone)]
pub struct FileSnapshotRecord {
    pub snapshot_index: u32,
    pub snapshot_count: u32,
    pub at_ms: i64,
    pub duration_ms: Option<i64>,
    pub ahash: Option<u64>,
    pub dhash: Option<u64>,
    pub phash: Option<u64>,
    pub image_avif: Vec<u8>,
}

/// One file as the listings of a fileset show it.
#[derive(Debug, Clone)]
pub struct FileListRow {
    pub id: i64,
    pub path: String,
    pub size_bytes: u64,
    pub blake3: Option<[u8; 32]>,
    pub sha256: Option<[u8; 32]>,
    pub ahash: Option<u64>,
    pub dhash: Option<u64>,
    pub phash: Option<u64>,
    pub file_type: Option<String>,
}

/// What a fileset records about the scan that made it.
#[derive(Debug, Clone)]
pub struct FilesetMetadata {
    /// Creation time, in seconds since the Unix epoch.
    pub created_at: u64,
    pub root_kind: ScanRootKind,
    pub root_path: String,
    pub root_parent_path: Option<String>,
    pub drive: DriveMetadata,
    pub host_os: String,
    pub host_os_version: String,
    pub app_version: String,
    pub status: String,
    pub name: String,
    pub description: String,
    pub notes: String,
}

/// Counters of a scan.
#[derive(Debug, Clone, Copy)]
pub struct ScanStats {
    pub files_seen: u64,
    pub files_hashed: u64,
    pub files_skipped: u64,
}

impl Default for ScanStats {
    fn default() -> (r: ScanStats)
        ensures
            r.files_seen == 0,
            r.files_hashed == 0,
            r.files_skipped == 0,
    {
        ScanStats { files_seen: 0, files_hashed: 0, files_skipped: 0 }
    }
}

/// What a finished scan reports.
#[derive(Debug, Clone, Copy)]
pub struct ScanResult {
    pub stats: ScanStats,
}

/// A group as the C interface lists it: a label, and the run of listed
/// files that belong to it.
#[derive(Debug, Clone)]
pub struct GroupRecord {
    pub label: String,
    pub rows_start: usize,
    pub rows_len: usize,
}

pub type RecordView = (Seq<char>, usize, usize);

impl View for GroupRecord {
    type V = RecordView;

    open spec fn view(&self) -> RecordView {
        (self.label@, self.rows_start, self.rows_len)
    }
}

pub open spec fn record_views(r: Seq<GroupRecord>) -> Seq<RecordView> {
    Seq::new(r.len(), |i: int| r[i]@)
}

} // verus!
