//! How records of a fileset map to the columns of its SQLite tables and
//! back.
//!
//! The statements themselves run in the application; this module holds the
//! conversions between records and column values, and what a read of a row
//! gives back of the write that stored it.

use vstd::prelude::*;
use crate::models::{DriveMetadata, FileListRow, FileSnapshotRecord, FilesetMetadata, MediaFileRecord, ScanRootKind};
use crate::text::{chars_eq, chars_of};

verus! {

broadcast use vstd::array::axiom_array_ext_equal;

/// A 32-byte digest stored as a blob: present when the blob is exactly 32
/// bytes long.
pub open spec fn blob_digest_ok(blob: Option<Vec<u8>>, r: Option<[u8; 32]>) -> bool {
    match blob {
        Some(b) => if b@.len() == 32 {
            r matches Some(h) && h@ == b@
        } else {
            r is None
        },
        None => r is None,
    }
}

/// Reads a 32-byte digest out of a blob column.
pub fn blob_to_hash(blob: Option<Vec<u8>>) -> (r: Option<[u8; 32]>)
    ensures
        blob_digest_ok(blob, r),
{
    let bytes = match blob {
        None => return None,
        Some(b) => b,
    };
    if bytes.len() != 32 {
        return None;
    }
    let mut out = [0u8; 32];
    let mut i: usize = 0;
    while i < 32
        invariant
            i <= 32,
            bytes@.len() == 32,
            forall|j: int| 0 <= j < i ==> out@[j] == bytes@[j],
        decreases 32 - i,
    {
        out[i] = bytes[i];
        i = i + 1;
    }
    assert(out@ =~= bytes@);
    Some(out)
}

/// The bytes of a digest, for a blob column.
pub fn hash_to_blob(h: &[u8; 32]) -> (r: Vec<u8>)
    ensures
        r@ == h@,
{
    let mut out: Vec<u8> = Vec::new();
    let mut i: usize = 0;
    while i < 32
        invariant
            i <= 32,
            out@ == h@.take(i as int),
        decreases 32 - i,
    {
        out.push(h[i]);
        assert(out@ =~= h@.take(i + 1));
        i = i + 1;
    }
    assert(h@.take(32) =~= h@);
    out
}

fn opt_hash_to_blob(h: &Option<[u8; 32]>) -> (r: Option<Vec<u8>>)
    ensures
        match h {
            Some(d) => r matches Some(b) && b@ == d@,
            None => r is None,
        },
{
    match h {
        Some(d) => Some(hash_to_blob(d)),
        None => None,
    }
}

/// The text stored for a root kind.
pub open spec fn root_kind_text(k: ScanRootKind) -> Seq<char> {
    match k {
        ScanRootKind::Folder => seq!['f', 'o', 'l', 'd', 'e', 'r'],
        ScanRootKind::Drive => seq!['d', 'r', 'i', 'v', 'e'],
    }
}

/// The root kind a stored text names: `drive` names a drive, anything else
/// a folder.
pub open spec fn root_kind_of_text(s: Seq<char>) -> ScanRootKind {
    if s == seq!['d', 'r', 'i', 'v', 'e'] {
        ScanRootKind::Drive
    } else {
        ScanRootKind::Folder
    }
}

pub fn root_kind_to_str(k: ScanRootKind) -> (r: String)
    ensures
        r@ == root_kind_text(k),
{
    let mut v: Vec<char> = Vec::new();
    match k {
        ScanRootKind::Folder => {
            v.push('f');
            v.push('o');
            v.push('l');
            v.push('d');
            v.push('e');
            v.push('r');
        },
        ScanRootKind::Drive => {
            v.push('d');
            v.push('r');
            v.push('i');
            v.push('v');
            v.push('e');
        },
    }
    assert(v@ =~= root_kind_text(k));
    crate::text::string_from_chars(v.as_slice())
}

pub fn str_to_root_kind(s: &str) -> (r: ScanRootKind)
    ensures
        r == root_kind_of_text(s@),
{
    let cs = chars_of(s);
    let drive = root_kind_to_str(ScanRootKind::Drive);
    let d = chars_of(drive.as_str());
    if chars_eq(cs.as_slice(), d.as_slice()) {
        ScanRootKind::Drive
    } else {
        ScanRootKind::Folder
    }
}

/// The column that identifies a file: `id` where the table has one, else
/// SQLite's `rowid`.
pub fn file_id_column(has_file_id: bool) -> (r: String)
    ensures
        has_file_id ==> r@ == seq!['i', 'd'],
        !has_file_id ==> r@ == seq!['r', 'o', 'w', 'i', 'd'],
{
    let mut v: Vec<char> = Vec::new();
    if has_file_id {
        v.push('i');
        v.push('d');
        assert(v@ =~= seq!['i', 'd']);
    } else {
        v.push('r');
        v.push('o');
        v.push('w');
        v.push('i');
        v.push('d');
        assert(v@ =~= seq!['r', 'o', 'w', 'i', 'd']);
    }
    crate::text::string_from_chars(v.as_slice())
}

/// Whether a `PRAGMA table_info` listing names the given column.
pub fn names_column(names: &[String], column: &str) -> (r: bool)
    ensures
        r == exists|i: int| 0 <= i < names@.len() && #[trigger] names@[i]@ == column@,
{
    let c = chars_of(column);
    let mut i: usize = 0;
    while i < names.len()
        invariant
            i <= names@.len(),
            c@ == column@,
            forall|j: int| 0 <= j < i ==> #[trigger] names@[j]@ != column@,
        decreases names@.len() - i,
    {
        let n = chars_of(names[i].as_str());
        if chars_eq(n.as_slice(), c.as_slice()) {
            return true;
        }
        i = i + 1;
    }
    false
}

/// Column values of a row of `files`.
#[derive(Debug, Clone)]
pub struct FileColumns {
    pub path: String,
    pub size_bytes: i64,
    pub modified_at_secs: Option<i64>,
    pub blake3: Option<Vec<u8>>,
    pub sha256: Option<Vec<u8>>,
    pub ahash: Option<i64>,
    pub dhash: Option<i64>,
    pub phash: Option<i64>,
    pub ffmpeg_metadata: Option<String>,
    pub file_type: Option<String>,
}

pub open spec fn opt_u64_as_i64(o: Option<u64>) -> Option<i64> {
    match o {
        Some(v) => Some(v as i64),
        None => None,
    }
}

pub open spec fn opt_i64_as_u64(o: Option<i64>) -> Option<u64> {
    match o {
        Some(v) => Some(v as u64),
        None => None,
    }
}

pub open spec fn digest_blob_ok(h: Option<[u8; 32]>, b: Option<Vec<u8>>) -> bool {
    match h {
        Some(d) => b matches Some(v) && v@ == d@,
        None => b is None,
    }
}

/// The columns that store a record: numbers as SQLite's signed integers,
/// digests as blobs.
pub open spec fn encodes_file(rec: MediaFileRecord, c: FileColumns) -> bool {
    &&& c.path == rec.path
    &&& c.size_bytes == rec.size_bytes as i64
    &&& c.modified_at_secs == opt_u64_as_i64(rec.modified_at)
    &&& digest_blob_ok(rec.blake3, c.blake3)
    &&& digest_blob_ok(rec.sha256, c.sha256)
    &&& c.ahash == opt_u64_as_i64(rec.ahash)
    &&& c.dhash == opt_u64_as_i64(rec.dhash)
    &&& c.phash == opt_u64_as_i64(rec.phash)
    &&& c.ffmpeg_metadata == rec.ffmpeg_metadata
    &&& c.file_type == rec.file_type
}

/// Seconds read back from a stored time: negative values count as zero.
pub open spec fn stored_secs(o: Option<i64>) -> Option<u64> {
    match o {
        Some(v) => Some(if v < 0 { 0u64 } else { v as u64 }),
        None => None,
    }
}

/// The record a row of `files` reads back as.
pub open spec fn decodes_file(id: i64, c: FileColumns, r: MediaFileRecord) -> bool {
    &&& r.file_id == Some(id)
    &&& r.path == c.path
    &&& r.size_bytes == c.size_bytes as u64
    &&& r.modified_at == stored_secs(c.modified_at_secs)
    &&& blob_digest_ok(c.blake3, r.blake3)
    &&& blob_digest_ok(c.sha256, r.sha256)
    &&& r.ahash == opt_i64_as_u64(c.ahash)
    &&& r.dhash == opt_i64_as_u64(c.dhash)
    &&& r.phash == opt_i64_as_u64(c.phash)
    &&& r.ffmpeg_metadata == c.ffmpeg_metadata
    &&& r.file_type == c.file_type
}

fn opt_u64_to_i64(o: Option<u64>) -> (r: Option<i64>)
    ensures
        r == opt_u64_as_i64(o),
{
    match o {
        Some(v) => Some(v as i64),
        None => None,
    }
}

fn opt_i64_to_u64(o: Option<i64>) -> (r: Option<u64>)
    ensures
        r == opt_i64_as_u64(o),
{
    match o {
        Some(v) => Some(v as u64),
        None => None,
    }
}

fn clone_opt_string(o: &Option<String>) -> (r: Option<String>)
    ensures
        r == *o,
{
    match o {
        Some(s) => Some(s.clone()),
        None => None,
    }
}

impl MediaFileRecord {
    /// The column values that store this record.
    pub fn to_columns(&self) -> (c: FileColumns)
        ensures
            encodes_file(*self, c),
    {
        FileColumns {
            path: self.path.clone(),
            size_bytes: self.size_bytes as i64,
            modified_at_secs: opt_u64_to_i64(self.modified_at),
            blake3: opt_hash_to_blob(&self.blake3),
            sha256: opt_hash_to_blob(&self.sha256),
            ahash: opt_u64_to_i64(self.ahash),
            dhash: opt_u64_to_i64(self.dhash),
            phash: opt_u64_to_i64(self.phash),
            ffmpeg_metadata: clone_opt_string(&self.ffmpeg_metadata),
            file_type: clone_opt_string(&self.file_type),
        }
    }

    /// The record that a row of `files` with the given id reads back as.
    pub fn from_columns(id: i64, c: FileColumns) -> (r: MediaFileRecord)
        ensures
            decodes_file(id, c, r),
    {
        let ghost c0 = c;
        let modified_at = match c.modified_at_secs {
            Some(v) => Some(if v < 0 { 0u64 } else { v as u64 }),
            None => None,
        };
        let blake3 = blob_to_hash(c.blake3);
        let sha256 = blob_to_hash(c.sha256);
        MediaFileRecord {
            file_id: Some(id),
            path: c.path,
            size_bytes: c.size_bytes as u64,
            modified_at,
            blake3,
            sha256,
            ahash: opt_i64_to_u64(c.ahash),
            dhash: opt_i64_to_u64(c.dhash),
            phash: opt_i64_to_u64(c.phash),
            ffmpeg_metadata: c.ffmpeg_metadata,
            file_type: c.file_type,
        }
    }
}

proof fn lemma_u64_i64_roundtrip(v: u64)
    ensures
        (v as i64) as u64 == v,
{
    assert((v as i64) as u64 == v) by (bit_vector);
}

proof fn lemma_opt_roundtrip(o: Option<u64>)
    ensures
        opt_i64_as_u64(opt_u64_as_i64(o)) == o,
{
    if let Some(v) = o {
        lemma_u64_i64_roundtrip(v);
    }
}

proof fn lemma_digest_roundtrip(h: Option<[u8; 32]>, b: Option<Vec<u8>>, r: Option<[u8; 32]>)
    requires
        digest_blob_ok(h, b),
        blob_digest_ok(b, r),
    ensures
        r == h,
{
    match h {
        Some(d) => {
            let v = b->0;
            let e = r->0;
            assert(e =~= d);
        },
        None => {},
    }
}

/// A record stored in a row of `files` reads back unchanged, with the row's
/// id, where its modification time fits a signed 64-bit column.
pub proof fn lemma_file_roundtrip(rec: MediaFileRecord, c: FileColumns, id: i64, r: MediaFileRecord)
    requires
        encodes_file(rec, c),
        decodes_file(id, c, r),
        rec.modified_at matches Some(t) ==> t <= i64::MAX,
    ensures
        r == (MediaFileRecord { file_id: Some(id), ..rec }),
{
    lemma_u64_i64_roundtrip(rec.size_bytes);
    lemma_opt_roundtrip(rec.ahash);
    lemma_opt_roundtrip(rec.dhash);
    lemma_opt_roundtrip(rec.phash);
    lemma_digest_roundtrip(rec.blake3, c.blake3, r.blake3);
    lemma_digest_roundtrip(rec.sha256, c.sha256, r.sha256);
}

impl FileListRow {
    /// The listing row for the column values of a row of `files`.
    pub fn from_columns(
        id: i64,
        path: String,
        size_bytes: i64,
        blake3: Option<Vec<u8>>,
        sha256: Option<Vec<u8>>,
        ahash: Option<i64>,
        dhash: Option<i64>,
        phash: Option<i64>,
        file_type: Option<String>,
    ) -> (r: FileListRow)
        ensures
            r.id == id,
            r.path == path,
            r.size_bytes == size_bytes as u64,
            blob_digest_ok(blake3, r.blake3),
            blob_digest_ok(sha256, r.sha256),
            r.ahash == opt_i64_as_u64(ahash),
            r.dhash == opt_i64_as_u64(dhash),
            r.phash == opt_i64_as_u64(phash),
            r.file_type == file_type,
    {
        FileListRow {
            id,
            path,
            size_bytes: size_bytes as u64,
            blake3: blob_to_hash(blake3),
            sha256: blob_to_hash(sha256),
            ahash: opt_i64_to_u64(ahash),
            dhash: opt_i64_to_u64(dhash),
            phash: opt_i64_to_u64(phash),
            file_type,
        }
    }
}

/// Column values of a row of `file_snapshots`, without the file id.
#[derive(Debug, Clone)]
pub struct SnapshotColumns {
    pub snapshot_index: i64,
    pub snapshot_count: i64,
    pub at_ms: i64,
    pub duration_ms: Option<i64>,
    pub ahash: Option<i64>,
    pub dhash: Option<i64>,
    pub phash: Option<i64>,
    pub image_avif: Vec<u8>,
}

pub open spec fn encodes_snapshot(s: FileSnapshotRecord, c: SnapshotColumns) -> bool {
    &&& c.snapshot_index == s.snapshot_index as i64
    &&& c.snapshot_count == s.snapshot_count as i64
    &&& c.at_ms == s.at_ms
    &&& c.duration_ms == s.duration_ms
    &&& c.ahash == opt_u64_as_i64(s.ahash)
    &&& c.dhash == opt_u64_as_i64(s.dhash)
    &&& c.phash == opt_u64_as_i64(s.phash)
    &&& c.image_avif@ == s.image_avif@
}

pub open spec fn decodes_snapshot(c: SnapshotColumns, s: FileSnapshotRecord) -> bool {
    &&& s.snapshot_index == c.snapshot_index as u32
    &&& s.snapshot_count == c.snapshot_count as u32
    &&& s.at_ms == c.at_ms
    &&& s.duration_ms == c.duration_ms
    &&& s.ahash == opt_i64_as_u64(c.ahash)
    &&& s.dhash == opt_i64_as_u64(c.dhash)
    &&& s.phash == opt_i64_as_u64(c.phash)
    &&& s.image_avif@ == c.image_avif@
}

fn copy_bytes(v: &Vec<u8>) -> (r: Vec<u8>)
    ensures
        r@ == v@,
{
    let mut out: Vec<u8> = Vec::new();
    let mut i: usize = 0;
    while i < v.len()
        invariant
            i <= v@.len(),
            out@ == v@.take(i as int),
        decreases v@.len() - i,
    {
        out.push(v[i]);
        assert(out@ =~= v@.take(i + 1));
        i = i + 1;
    }
    assert(v@.take(v@.len() as int) =~= v@);
    out
}

impl FileSnapshotRecord {
    pub fn to_columns(&self) -> (c: SnapshotColumns)
        ensures
            encodes_snapshot(*self, c),
    {
        SnapshotColumns {
            snapshot_index: self.snapshot_index as i64,
            snapshot_count: self.snapshot_count as i64,
            at_ms: self.at_ms,
            duration_ms: self.duration_ms,
            ahash: opt_u64_to_i64(self.ahash),
            dhash: opt_u64_to_i64(self.dhash),
            phash: opt_u64_to_i64(self.phash),
            image_avif: copy_bytes(&self.image_avif),
        }
    }

    pub fn from_columns(c: SnapshotColumns) -> (s: FileSnapshotRecord)
        ensures
            decodes_snapshot(c, s),
    {
        FileSnapshotRecord {
            snapshot_index: c.snapshot_index as u32,
            snapshot_count: c.snapshot_count as u32,
            at_ms: c.at_ms,
            duration_ms: c.duration_ms,
            ahash: opt_i64_to_u64(c.ahash),
            dhash: opt_i64_to_u64(c.dhash),
            phash: opt_i64_to_u64(c.phash),
            image_avif: c.image_avif,
        }
    }
}

/// A stored snapshot reads back unchanged.
pub proof fn lemma_snapshot_roundtrip(s: FileSnapshotRecord, c: SnapshotColumns, r: FileSnapshotRecord)
    requires
        encodes_snapshot(s, c),
        decodes_snapshot(c, r),
    ensures
        r.snapshot_index == s.snapshot_index,
        r.snapshot_count == s.snapshot_count,
        r.at_ms == s.at_ms,
        r.duration_ms == s.duration_ms,
        r.ahash == s.ahash,
        r.dhash == s.dhash,
        r.phash == s.phash,
        r.image_avif@ == s.image_avif@,
{
    lemma_opt_roundtrip(s.ahash);
    lemma_opt_roundtrip(s.dhash);
    lemma_opt_roundtrip(s.phash);
}

/// Column values of the single row of `fileset`.
#[derive(Debug, Clone)]
pub struct FilesetColumns {
    pub created_at_secs: Option<i64>,
    pub root_kind: Option<String>,
    pub root_path: Option<String>,
    pub root_parent_path: Option<String>,
    pub drive_id: Option<String>,
    pub drive_label: Option<String>,
    pub drive_fs_type: Option<String>,
    pub host_os: Option<String>,
    pub host_os_version: Option<String>,
    pub app_version: Option<String>,
    pub status: Option<String>,
    pub name: Option<String>,
    pub description: Option<String>,
    pub notes: Option<String>,
}

pub open spec fn text_or_empty(o: Option<String>) -> Seq<char> {
    match o {
        Some(s) => s@,
        None => Seq::empty(),
    }
}

/// The columns that store a fileset's metadata.
pub open spec fn encodes_fileset(m: FilesetMetadata, c: FilesetColumns) -> bool {
    &&& c.created_at_secs == Some(m.created_at as i64)
    &&& c.root_kind matches Some(t) && t@ == root_kind_text(m.root_kind)
    &&& c.root_path == Some(m.root_path)
    &&& c.root_parent_path == m.root_parent_path
    &&& c.drive_id == m.drive.id
    &&& c.drive_label == m.drive.label
    &&& c.drive_fs_type == m.drive.fs_type
    &&& c.host_os == Some(m.host_os)
    &&& c.host_os_version == Some(m.host_os_version)
    &&& c.app_version == Some(m.app_version)
    &&& c.status == Some(m.status)
    &&& c.name == Some(m.name)
    &&& c.description == Some(m.description)
    &&& c.notes == Some(m.notes)
}

/// The metadata that the row of `fileset` reads back as; a missing creation
/// time reads as `now`, a missing root kind as a folder, a missing text as
/// the empty text.
pub open spec fn decodes_fileset(c: FilesetColumns, now: u64, m: FilesetMetadata) -> bool {
    &&& m.created_at == (match c.created_at_secs {
        Some(v) => v as u64,
        None => now,
    })
    &&& m.root_kind == (match c.root_kind {
        Some(t) => root_kind_of_text(t@),
        None => ScanRootKind::Folder,
    })
    &&& m.root_path@ == text_or_empty(c.root_path)
    &&& m.root_parent_path == c.root_parent_path
    &&& m.drive.id == c.drive_id
    &&& m.drive.label == c.drive_label
    &&& m.drive.fs_type == c.drive_fs_type
    &&& m.host_os@ == text_or_empty(c.host_os)
    &&& m.host_os_version@ == text_or_empty(c.host_os_version)
    &&& m.app_version@ == text_or_empty(c.app_version)
    &&& m.status@ == text_or_empty(c.status)
    &&& m.name@ == text_or_empty(c.name)
    &&& m.description@ == text_or_empty(c.description)
    &&& m.notes@ == text_or_empty(c.notes)
}

fn text_or_default(o: Option<String>) -> (r: String)
    ensures
        r@ == text_or_empty(o),
{
    match o {
        Some(s) => s,
        None => String::new(),
    }
}

impl FilesetMetadata {
    /// The column values that store this metadata.
    pub fn to_columns(&self) -> (c: FilesetColumns)
        ensures
            encodes_fileset(*self, c),
    {
        FilesetColumns {
            created_at_secs: Some(self.created_at as i64),
            root_kind: Some(root_kind_to_str(self.root_kind)),
            root_path: Some(self.root_path.clone()),
            root_parent_path: clone_opt_string(&self.root_parent_path),
            drive_id: clone_opt_string(&self.drive.id),
            drive_label: clone_opt_string(&self.drive.label),
            drive_fs_type: clone_opt_string(&self.drive.fs_type),
            host_os: Some(self.host_os.clone()),
            host_os_version: Some(self.host_os_version.clone()),
            app_version: Some(self.app_version.clone()),
            status: Some(self.status.clone()),
            name: Some(self.name.clone()),
            description: Some(self.description.clone()),
            notes: Some(self.notes.clone()),
        }
    }

    /// The metadata that the row of `fileset` reads back as, with `now` (in
    /// seconds since the Unix epoch) standing for a missing creation time.
    pub fn from_columns(c: FilesetColumns, now: u64) -> (m: FilesetMetadata)
        ensures
            decodes_fileset(c, now, m),
    {
        let created_at = match c.created_at_secs {
            Some(v) => v as u64,
            None => now,
        };
        let root_kind = match &c.root_kind {
            Some(t) => str_to_root_kind(t.as_str()),
            None => ScanRootKind::Folder,
        };
        FilesetMetadata {
            created_at,
            root_kind,
            root_path: text_or_default(c.root_path),
            root_parent_path: c.root_parent_path,
            drive: DriveMetadata { id: c.drive_id, label: c.drive_label, fs_type: c.drive_fs_type },
            host_os: text_or_default(c.host_os),
            host_os_version: text_or_default(c.host_os_version),
            app_version: text_or_default(c.app_version),
            status: text_or_default(c.status),
            name: text_or_default(c.name),
            description: text_or_default(c.description),
            notes: text_or_default(c.notes),
        }
    }
}

/// Fileset metadata stored in the `fileset` row reads back unchanged.
pub proof fn lemma_fileset_roundtrip(m: FilesetMetadata, c: FilesetColumns, now: u64, r: FilesetMetadata)
    requires
        encodes_fileset(m, c),
        decodes_fileset(c, now, r),
    ensures
        r.created_at == m.created_at,
        r.root_kind == m.root_kind,
        r.root_path@ == m.root_path@,
        r.root_parent_path == m.root_parent_path,
        r.drive == m.drive,
        r.host_os@ == m.host_os@,
        r.host_os_version@ == m.host_os_version@,
        r.app_version@ == m.app_version@,
        r.status@ == m.status@,
        r.name@ == m.name@,
        r.description@ == m.description@,
        r.notes@ == m.notes@,
{
    lemma_u64_i64_roundtrip(m.created_at);
    match m.root_kind {
        ScanRootKind::Folder => {
            assert(root_kind_text(ScanRootKind::Folder).len() != seq!['d', 'r', 'i', 'v', 'e'].len());
        },
        ScanRootKind::Drive => {},
    }
}


/// The digest by which a file's exact matches are looked up, and the column
/// that holds it: its BLAKE3 digest where it has one, else its SHA-256
/// digest; none where it has neither.
pub fn match_key_column(blake3: Option<Vec<u8>>, sha256: Option<Vec<u8>>) -> (r: Option<(Vec<u8>, &'static str)>)
    ensures
        match blake3 {
            Some(h) => r matches Some((k, c)) && k@ == h@ && c@ == "blake3"@,
            None => match sha256 {
                Some(h) => r matches Some((k, c)) && k@ == h@ && c@ == "sha256"@,
                None => r is None,
            },
        },
{
    match blake3 {
        Some(h) => Some((h, "blake3")),
        None => match sha256 {
            Some(h) => Some((h, "sha256")),
            None => None,
        },
    }
}

} // verus!
