//! The logic of the C interface: its version, its status codes, the scan
//! options it takes, and the values it hands out, before they are turned
//! into C memory.

use vstd::prelude::*;
use crate::hex::{hex_encode, hex_of};
use crate::models::{DriveMetadata, FileSnapshotRecord, FilesetMetadata, ScanRootKind};
use crate::scan::{ScanCancelToken, ScanConfig, ScanTotals};

verus! {

/// A handle the C side holds for the library.
#[derive(Debug)]
pub struct DupdupEngine {}

impl DupdupEngine {
    pub fn new() -> DupdupEngine {
        DupdupEngine {}
    }
}

/// A cancellation flag the C side holds for a running scan.
#[derive(Debug, Clone)]
pub struct DupdupCancelToken {
    pub token: ScanCancelToken,
}

impl DupdupCancelToken {
    pub fn new() -> DupdupCancelToken {
        DupdupCancelToken { token: ScanCancelToken::new() }
    }

    /// Asks the scan holding this flag to stop.
    pub fn cancel(&self) {
        self.token.cancel();
    }
}

/// The totals of a prescan as the C side reads them.
#[derive(Debug, Clone, Copy)]
pub struct DupdupPrescanTotals {
    pub total_files: u64,
    pub total_bytes: u64,
}

pub fn prescan_totals(t: ScanTotals) -> (r: DupdupPrescanTotals)
    ensures
        r.total_files == t.files,
        r.total_bytes == t.bytes,
{
    DupdupPrescanTotals { total_files: t.files, total_bytes: t.bytes }
}

/// The options of a scan started from the C side.
#[derive(Debug, Clone, Copy)]
pub struct DupdupScanOptions {
    pub capture_snapshots: bool,
    pub snapshots_per_video: u32,
    pub snapshot_max_dim: u32,
}

/// The options where the C side gives none: snapshots on, three per video,
/// at most 1024 pixels.
pub fn default_scan_options() -> (o: DupdupScanOptions)
    ensures
        o.capture_snapshots,
        o.snapshots_per_video == 3,
        o.snapshot_max_dim == 1024,
{
    DupdupScanOptions { capture_snapshots: true, snapshots_per_video: 3, snapshot_max_dim: 1024 }
}

/// The value held to `lo..=hi`.
pub open spec fn held(x: u32, lo: u32, hi: u32) -> u32 {
    if x < lo {
        lo
    } else if x > hi {
        hi
    } else {
        x
    }
}

/// The scan of a folder that the options ask for: perceptual hashes
/// always, content digests as asked, snapshots as the options say, their
/// number held to 1..=10 and their size to 128..=4096, files processed
/// concurrently.
pub fn scan_config_from_options(root: String, options: DupdupScanOptions, hash_files: bool) -> (c: ScanConfig)
    ensures
        c.root == root,
        c.root_kind == ScanRootKind::Folder,
        c.hash_files == hash_files,
        c.perceptual_hashes,
        c.capture_snapshots == options.capture_snapshots,
        c.snapshots_per_video == held(options.snapshots_per_video, 1, 10),
        c.snapshot_max_dim == held(options.snapshot_max_dim, 128, 4096),
        c.concurrent_processing,
{
    let spv = options.snapshots_per_video;
    let dim = options.snapshot_max_dim;
    ScanConfig {
        root,
        root_kind: ScanRootKind::Folder,
        hash_files,
        perceptual_hashes: true,
        capture_snapshots: options.capture_snapshots,
        snapshots_per_video: if spv < 1 {
            1
        } else if spv > 10 {
            10
        } else {
            spv
        },
        snapshot_max_dim: if dim < 128 {
            128
        } else if dim > 4096 {
            4096
        } else {
            dim
        },
        concurrent_processing: true,
    }
}

/// The version of the C interface.
#[derive(Debug, Clone, Copy, PartialEq, Eq, Structural)]
pub struct DupdupVersion {
    pub major: u32,
    pub minor: u32,
    pub patch: u32,
}

/// The version this library implements: 1.3.0.
pub open spec fn interface_version() -> DupdupVersion {
    DupdupVersion { major: 1, minor: 3, patch: 0 }
}

pub fn ffi_version() -> (v: DupdupVersion)
    ensures
        v == interface_version(),
{
    DupdupVersion { major: 1, minor: 3, patch: 0 }
}

/// The major version alone: callers built against another major version
/// must not use the interface.
pub fn ffi_abi_major() -> (m: u32)
    ensures
        m == interface_version().major,
{
    1
}

/// The outcome of a call of the C interface.
#[derive(Debug, Clone, Copy, PartialEq, Eq, Structural)]
pub enum DupdupStatus {
    Success,
    Error,
    InvalidArgument,
    NullPointer,
}

impl DupdupStatus {
    /// The number the C side sees.
    pub fn code(self) -> (c: u32)
        ensures
            c == match self {
                DupdupStatus::Success => 0u32,
                DupdupStatus::Error => 1u32,
                DupdupStatus::InvalidArgument => 2u32,
                DupdupStatus::NullPointer => 3u32,
            },
    {
        match self {
            DupdupStatus::Success => 0,
            DupdupStatus::Error => 1,
            DupdupStatus::InvalidArgument => 2,
            DupdupStatus::NullPointer => 3,
        }
    }
}

/// A snapshot as the C side reads it: each optional value as a flag and
/// the value, 0 where there is none.
#[derive(Debug, Clone, Copy)]
pub struct DupdupSnapshotInfo {
    pub snapshot_index: u32,
    pub snapshot_count: u32,
    pub at_ms: i64,
    pub has_duration: u8,
    pub duration_ms: i64,
    pub has_ahash: u8,
    pub ahash: u64,
    pub has_dhash: u8,
    pub dhash: u64,
    pub has_phash: u8,
    pub phash: u64,
}

pub open spec fn flag(present: bool) -> u8 {
    if present {
        1
    } else {
        0
    }
}

pub open spec fn hash_or_zero(o: Option<u64>) -> u64 {
    match o {
        Some(v) => v,
        None => 0,
    }
}

pub fn snapshot_info(s: &FileSnapshotRecord) -> (r: DupdupSnapshotInfo)
    ensures
        r.snapshot_index == s.snapshot_index,
        r.snapshot_count == s.snapshot_count,
        r.at_ms == s.at_ms,
        r.has_duration == flag(s.duration_ms is Some),
        r.duration_ms == match s.duration_ms {
            Some(d) => d,
            None => 0i64,
        },
        r.has_ahash == flag(s.ahash is Some),
        r.ahash == hash_or_zero(s.ahash),
        r.has_dhash == flag(s.dhash is Some),
        r.dhash == hash_or_zero(s.dhash),
        r.has_phash == flag(s.phash is Some),
        r.phash == hash_or_zero(s.phash),
{
    DupdupSnapshotInfo {
        snapshot_index: s.snapshot_index,
        snapshot_count: s.snapshot_count,
        at_ms: s.at_ms,
        has_duration: if s.duration_ms.is_some() {
            1
        } else {
            0
        },
        duration_ms: match s.duration_ms {
            Some(d) => d,
            None => 0,
        },
        has_ahash: if s.ahash.is_some() {
            1
        } else {
            0
        },
        ahash: match s.ahash {
            Some(v) => v,
            None => 0,
        },
        has_dhash: if s.dhash.is_some() {
            1
        } else {
            0
        },
        dhash: match s.dhash {
            Some(v) => v,
            None => 0,
        },
        has_phash: if s.phash.is_some() {
            1
        } else {
            0
        },
        phash: match s.phash {
            Some(v) => v,
            None => 0,
        },
    }
}

/// A digest in hexadecimal, or the empty text where there is none.
pub fn hash_to_hex_opt(hash: Option<&[u8; 32]>) -> (s: String)
    ensures
        s@ == match hash {
            Some(h) => hex_of(h@),
            None => Seq::<char>::empty(),
        },
{
    match hash {
        Some(h) => hex_encode(h),
        None => String::new(),
    }
}

/// The page of rows a listing of the C interface reads: at most
/// `max_limit` rows, from an offset of at most ten million.
pub fn listing_page(limit: u64, offset: u64, max_limit: u64) -> (r: (usize, usize))
    requires
        max_limit <= 10_000,
    ensures
        r.0 == (if limit < max_limit { limit } else { max_limit }),
        r.1 == (if offset < 10_000_000 { offset } else { 10_000_000 }),
{
    let l: u64 = if limit < max_limit {
        limit
    } else {
        max_limit
    };
    let o: u64 = if offset < 10_000_000 {
        offset
    } else {
        10_000_000
    };
    (l as usize, o as usize)
}

/// The metadata a fileset without any reads as: a folder at an empty path,
/// made `now`, and every text empty.
pub fn blank_fileset_metadata(now: u64) -> (m: FilesetMetadata)
    ensures
        m.created_at == now,
        m.root_kind == ScanRootKind::Folder,
        m.root_path@ == Seq::<char>::empty(),
        m.root_parent_path is None,
        m.drive.id is None && m.drive.label is None && m.drive.fs_type is None,
        m.host_os@ == Seq::<char>::empty(),
        m.host_os_version@ == Seq::<char>::empty(),
        m.app_version@ == Seq::<char>::empty(),
        m.status@ == Seq::<char>::empty(),
        m.name@ == Seq::<char>::empty(),
        m.description@ == Seq::<char>::empty(),
        m.notes@ == Seq::<char>::empty(),
{
    FilesetMetadata {
        created_at: now,
        root_kind: ScanRootKind::Folder,
        root_path: String::new(),
        root_parent_path: None,
        drive: DriveMetadata { id: None, label: None, fs_type: None },
        host_os: String::new(),
        host_os_version: String::new(),
        app_version: String::new(),
        status: String::new(),
        name: String::new(),
        description: String::new(),
        notes: String::new(),
    }
}

/// The metadata with the four texts the user edits replaced; a text not
/// given becomes empty.
pub fn with_user_texts(
    meta: FilesetMetadata,
    name: Option<String>,
    description: Option<String>,
    notes: Option<String>,
    status: Option<String>,
) -> (m: FilesetMetadata)
    ensures
        m.name@ == match name {
            Some(s) => s@,
            None => Seq::<char>::empty(),
        },
        m.description@ == match description {
            Some(s) => s@,
            None => Seq::<char>::empty(),
        },
        m.notes@ == match notes {
            Some(s) => s@,
            None => Seq::<char>::empty(),
        },
        m.status@ == match status {
            Some(s) => s@,
            None => Seq::<char>::empty(),
        },
        m.created_at == meta.created_at,
        m.root_kind == meta.root_kind,
        m.root_path == meta.root_path,
        m.root_parent_path == meta.root_parent_path,
        m.drive == meta.drive,
        m.host_os == meta.host_os,
        m.host_os_version == meta.host_os_version,
        m.app_version == meta.app_version,
{
    let mut m = meta;
    m.name = match name {
        Some(s) => s,
        None => String::new(),
    };
    m.description = match description {
        Some(s) => s,
        None => String::new(),
    };
    m.notes = match notes {
        Some(s) => s,
        None => String::new(),
    };
    m.status = match status {
        Some(s) => s,
        None => String::new(),
    };
    m
}

} // verus!
