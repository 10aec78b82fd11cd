//! The rows of the desktop file browser: plain files, groups of matches and
//! the files of a group, and the rows of its comparison view.

use vstd::prelude::*;
use std::collections::HashMap;
use crate::models::{FileListRow, MediaFileRecord};
use crate::hex::{hex_encode, hex_of};
use crate::paths::{file_name, is_absolute, path_file_name, paths_equal, same_path};
use crate::text::{append_chars, append_decimal, append_str, decimal, string_from_chars, vec_from_str};

verus! {

broadcast use vstd::std_specs::hash::group_hash_axioms;

/// A file as the browser shows it.
#[derive(Debug, Clone)]
pub struct FileRow {
    pub id: i64,
    pub path: String,
    pub size_bytes: u64,
    pub blake3: Option<[u8; 32]>,
    pub sha256: Option<[u8; 32]>,
    pub file_type: Option<String>,
}

impl FileRow {
    /// The browser's view of a listed file.
    pub fn from_list_row(row: FileListRow) -> (r: FileRow)
        ensures
            r.id == row.id,
            r.path == row.path,
            r.size_bytes == row.size_bytes,
            r.blake3 == row.blake3,
            r.sha256 == row.sha256,
            r.file_type == row.file_type,
    {
        FileRow {
            id: row.id,
            path: row.path,
            size_bytes: row.size_bytes,
            blake3: row.blake3,
            sha256: row.sha256,
            file_type: row.file_type,
        }
    }
}

/// What a row of the browser stands for.
#[derive(Debug, Clone)]
pub enum RowKind {
    File(FileRow),
    MatchGroup { label: String, matches: Vec<FileRow> },
    MatchItem(FileRow),
}

/// A row of the browser.
#[derive(Debug, Clone)]
pub struct RowItem {
    pub kind: RowKind,
}

/// The name a row shows for a file: its file name, or `(unknown)`.
pub open spec fn file_label(path: Seq<char>) -> Seq<char> {
    match file_name(path) {
        Some(n) => n,
        None => "(unknown)"@,
    }
}

fn file_label_of(path: &str) -> (s: String)
    ensures
        s@ == file_label(path@),
{
    match path_file_name(path) {
        Some(n) => n,
        None => "(unknown)".to_owned(),
    }
}

impl RowItem {
    pub fn from_file(row: FileListRow) -> (r: RowItem)
        ensures
            r.kind matches RowKind::File(f) && f.id == row.id && f.path == row.path,
    {
        RowItem { kind: RowKind::File(FileRow::from_list_row(row)) }
    }

    pub fn match_group(label: String, matches: Vec<FileListRow>) -> (r: RowItem)
        ensures
            r.kind matches RowKind::MatchGroup { label: l, matches: m } && l == label && m@.len() == matches@.len()
                && forall|i: int| 0 <= i < m@.len() ==> (#[trigger] m@[i]).id == matches@[i].id && m@[i].path
                    == matches@[i].path,
    {
        let mut rows: Vec<FileRow> = Vec::new();
        let mut rest = matches;
        let ghost all = rest@;
        let mut taken: usize = 0;
        let n = rest.len();
        while taken < n
            invariant
                taken <= n == all.len(),
                rest@ == all.skip(taken as int),
                rows@.len() == taken,
                forall|i: int| 0 <= i < taken ==> (#[trigger] rows@[i]).id == all[i].id && rows@[i].path == all[i].path,
            decreases n - taken,
        {
            let row = rest.remove(0);
            assert(row == all[taken as int]);
            assert(rest@ =~= all.skip(taken + 1));
            rows.push(FileRow::from_list_row(row));
            taken = taken + 1;
        }
        RowItem { kind: RowKind::MatchGroup { label, matches: rows } }
    }

    pub fn match_item(row: FileRow) -> (r: RowItem)
        ensures
            r.kind == RowKind::MatchItem(row),
    {
        RowItem { kind: RowKind::MatchItem(row) }
    }

    /// A file row shows its file name; a group shows its label.
    pub fn label(&self) -> (s: String)
        ensures
            s@ == match self.kind {
                RowKind::File(f) => file_label(f.path@),
                RowKind::MatchItem(f) => file_label(f.path@),
                RowKind::MatchGroup { label, .. } => label@,
            },
    {
        match &self.kind {
            RowKind::File(file) => file_label_of(file.path.as_str()),
            RowKind::MatchItem(file) => file_label_of(file.path.as_str()),
            RowKind::MatchGroup { label, .. } => label.clone(),
        }
    }

    /// The file of a file row.
    pub fn file_ref(&self) -> (r: Option<&FileRow>)
        ensures
            r == match self.kind {
                RowKind::File(f) => Some(&f),
                RowKind::MatchItem(f) => Some(&f),
                RowKind::MatchGroup { .. } => None::<&FileRow>,
            },
    {
        match &self.kind {
            RowKind::File(file) => Some(file),
            RowKind::MatchItem(file) => Some(file),
            RowKind::MatchGroup { .. } => None,
        }
    }

    pub fn is_group(&self) -> (r: bool)
        ensures
            r == (self.kind is MatchGroup),
    {
        match &self.kind {
            RowKind::MatchGroup { .. } => true,
            _ => false,
        }
    }

    pub fn is_match_item(&self) -> (r: bool)
        ensures
            r == (self.kind is MatchItem),
    {
        match &self.kind {
            RowKind::MatchItem(_) => true,
            _ => false,
        }
    }
}

/// A field of a file that the comparison view shows.
#[derive(Debug, Clone, Copy, PartialEq, Eq, Structural)]
pub enum MetadataField {
    Path,
    Size,
    Modified,
    FileType,
    Blake3,
    Sha256,
    Ffmpeg,
}

/// A row of the comparison view: a labelled field, or a snapshot by index.
#[derive(Debug, Clone)]
pub enum CompareRow {
    Field(String, MetadataField),
    Snapshot(usize),
}

pub open spec fn field_row(r: CompareRow, label: Seq<char>, f: MetadataField) -> bool {
    r matches CompareRow::Field(l, g) && l@ == label && g == f
}

/// The rows of the comparison view: the seven fields, then one row per
/// snapshot.
pub fn metadata_rows(max_snapshots: usize) -> (rows: Vec<CompareRow>)
    ensures
        rows@.len() == 7 + max_snapshots,
        field_row(rows@[0], "Path"@, MetadataField::Path),
        field_row(rows@[1], "Size"@, MetadataField::Size),
        field_row(rows@[2], "Modified"@, MetadataField::Modified),
        field_row(rows@[3], "File Type"@, MetadataField::FileType),
        field_row(rows@[4], "Blake3"@, MetadataField::Blake3),
        field_row(rows@[5], "SHA-256"@, MetadataField::Sha256),
        field_row(rows@[6], "FFmpeg metadata"@, MetadataField::Ffmpeg),
        forall|i: int| 7 <= i < rows@.len() ==> #[trigger] rows@[i] == CompareRow::Snapshot((i - 7) as usize),
{
    let mut rows: Vec<CompareRow> = Vec::new();
    rows.push(CompareRow::Field("Path".to_owned(), MetadataField::Path));
    rows.push(CompareRow::Field("Size".to_owned(), MetadataField::Size));
    rows.push(CompareRow::Field("Modified".to_owned(), MetadataField::Modified));
    rows.push(CompareRow::Field("File Type".to_owned(), MetadataField::FileType));
    rows.push(CompareRow::Field("Blake3".to_owned(), MetadataField::Blake3));
    rows.push(CompareRow::Field("SHA-256".to_owned(), MetadataField::Sha256));
    rows.push(CompareRow::Field("FFmpeg metadata".to_owned(), MetadataField::Ffmpeg));
    let ghost head = rows@;
    let mut idx: usize = 0;
    while idx < max_snapshots
        invariant
            idx <= max_snapshots,
            rows@.len() == 7 + idx,
            head.len() == 7,
            field_row(head[0], "Path"@, MetadataField::Path),
            field_row(head[1], "Size"@, MetadataField::Size),
            field_row(head[2], "Modified"@, MetadataField::Modified),
            field_row(head[3], "File Type"@, MetadataField::FileType),
            field_row(head[4], "Blake3"@, MetadataField::Blake3),
            field_row(head[5], "SHA-256"@, MetadataField::Sha256),
            field_row(head[6], "FFmpeg metadata"@, MetadataField::Ffmpeg),
            forall|i: int| 0 <= i < 7 ==> rows@[i] == head[i],
            forall|i: int| 7 <= i < rows@.len() ==> #[trigger] rows@[i] == CompareRow::Snapshot((i - 7) as usize),
        decreases max_snapshots - idx,
    {
        rows.push(CompareRow::Snapshot(idx));
        idx = idx + 1;
    }
    rows
}

/// `"Snapshot <n>"`, counting from 1.
pub fn snapshot_label(index: usize) -> (s: String)
    requires
        index < usize::MAX,
    ensures
        s@ == "Snapshot "@ + decimal((index + 1) as nat),
{
    let mut v: Vec<char> = Vec::new();
    append_str(&mut v, "Snapshot ");
    append_decimal(&mut v, (index + 1) as u64);
    string_from_chars(v.as_slice())
}

/// The name the comparison view gives a file: its file name, or
/// `(unknown)`.
pub fn display_name(record: &MediaFileRecord) -> (s: String)
    ensures
        s@ == file_label(record.path@),
{
    file_label_of(record.path.as_str())
}

/// `rel` joined under `root` as a Unix path joins: an absolute `rel` stands
/// alone; otherwise one `/` goes between them where `root` is not empty and
/// does not already end in one.
pub open spec fn joined(root: Seq<char>, rel: Seq<char>) -> Seq<char> {
    if is_absolute(rel) {
        rel
    } else if root.len() > 0 && root.last() != '/' {
        root + seq!['/'] + rel
    } else {
        root + rel
    }
}

pub fn join_path(root: &str, rel: &str) -> (s: String)
    ensures
        s@ == joined(root@, rel@),
{
    let r = vec_from_str(rel);
    if r.len() > 0 && r[0] == '/' {
        return rel.to_owned();
    }
    let mut v = vec_from_str(root);
    if v.len() > 0 && v[v.len() - 1] != '/' {
        v.push('/');
    }
    append_chars(&mut v, r.as_slice());
    string_from_chars(v.as_slice())
}

/// The text of an optional value, empty where there is none.
pub open spec fn text_or_empty(o: Option<String>) -> Seq<char> {
    match o {
        Some(s) => s@,
        None => Seq::empty(),
    }
}

/// The hexadecimal of an optional digest, empty where there is none.
pub open spec fn digest_text(o: Option<[u8; 32]>) -> Seq<char> {
    match o {
        Some(h) => hex_of(h@),
        None => Seq::empty(),
    }
}

/// What the comparison view shows for a field of a file whose path is
/// relative to `root`. The size is shown as `size_text`, the caller's
/// rendering of the byte count.
pub open spec fn field_text(field: MetadataField, record: MediaFileRecord, root: Seq<char>, size_text: Seq<char>) -> Seq<
    char,
> {
    match field {
        MetadataField::Path => joined(root, record.path@),
        MetadataField::Size => size_text,
        MetadataField::Modified => match record.modified_at {
            Some(t) => decimal(t as nat) + "s"@,
            None => "Unknown"@,
        },
        MetadataField::FileType => text_or_empty(record.file_type),
        MetadataField::Blake3 => digest_text(record.blake3),
        MetadataField::Sha256 => digest_text(record.sha256),
        MetadataField::Ffmpeg => text_or_empty(record.ffmpeg_metadata),
    }
}

fn opt_text(o: &Option<String>) -> (s: String)
    ensures
        s@ == text_or_empty(*o),
{
    match o {
        Some(t) => t.clone(),
        None => String::new(),
    }
}

fn opt_digest(o: &Option<[u8; 32]>) -> (s: String)
    ensures
        s@ == digest_text(*o),
{
    match o {
        Some(h) => hex_encode(h),
        None => String::new(),
    }
}

/// The value the comparison view shows for a field of a file.
pub fn metadata_value(field: MetadataField, record: &MediaFileRecord, root_path: &str, size_text: String) -> (s:
    String)
    ensures
        s@ == field_text(field, *record, root_path@, size_text@),
{
    match field {
        MetadataField::Path => join_path(root_path, record.path.as_str()),
        MetadataField::Size => size_text,
        MetadataField::Modified => match record.modified_at {
            Some(t) => {
                let mut v: Vec<char> = Vec::new();
                append_decimal(&mut v, t);
                append_str(&mut v, "s");
                string_from_chars(v.as_slice())
            },
            None => "Unknown".to_owned(),
        },
        MetadataField::FileType => opt_text(&record.file_type),
        MetadataField::Blake3 => opt_digest(&record.blake3),
        MetadataField::Sha256 => opt_digest(&record.sha256),
        MetadataField::Ffmpeg => opt_text(&record.ffmpeg_metadata),
    }
}

/// The state of the browser's action bar with `count` files selected: its
/// label, and whether its actions are enabled.
pub fn action_bar_state(count: usize) -> (r: (String, bool))
    ensures
        r.0@ == decimal(count as nat) + " selected"@,
        r.1 == (count > 0),
{
    let mut v: Vec<char> = Vec::new();
    append_decimal(&mut v, count as u64);
    append_str(&mut v, " selected");
    (string_from_chars(v.as_slice()), count > 0)
}

/// A file picked in the browser: its path and the path of the file it
/// duplicates, both relative to the fileset's root.
#[derive(Debug, Clone)]
pub struct SelectedFile {
    pub rel_path: String,
    pub parent_rel_path: String,
}

/// The files picked in the browser, by file id.
pub struct FileSelection {
    files: HashMap<i64, SelectedFile>,
}

impl View for FileSelection {
    type V = Map<i64, SelectedFile>;

    closed spec fn view(&self) -> Map<i64, SelectedFile> {
        self.files@
    }
}

impl FileSelection {
    pub fn new() -> (s: FileSelection)
        ensures
            s@ == Map::<i64, SelectedFile>::empty(),
    {
        FileSelection { files: HashMap::new() }
    }

    /// A file's box was ticked or cleared: a ticked file is picked with its
    /// paths, a cleared one is no longer picked.
    pub fn set_checked(&mut self, file_id: i64, rel_path: String, parent_rel_path: String, checked: bool)
        ensures
            final(self)@ == if checked {
                old(self)@.insert(file_id, SelectedFile { rel_path, parent_rel_path })
            } else {
                old(self)@.remove(file_id)
            },
    {
        if checked {
            self.files.insert(file_id, SelectedFile { rel_path, parent_rel_path });
        } else {
            self.files.remove(&file_id);
        }
    }

    /// Whether the file is picked.
    pub fn contains(&self, file_id: i64) -> (r: bool)
        ensures
            r == self@.contains_key(file_id),
    {
        self.files.contains_key(&file_id)
    }

    /// How many files are picked.
    pub fn count(&self) -> (n: usize)
        ensures
            n == self@.len(),
    {
        self.files.len()
    }

    /// Nothing is picked any more.
    pub fn clear(&mut self)
        ensures
            final(self)@ == Map::<i64, SelectedFile>::empty(),
    {
        self.files.clear();
    }
}

/// Where replacing a picked file by a link to its parent acts: the file's
/// path and its parent's, both under `root`; nothing where they are the same
/// path, which is left alone.
pub fn link_paths(root: &str, rel_path: &str, parent_rel_path: &str) -> (r: Option<(String, String)>)
    ensures
        r is None <==> same_path(joined(root@, rel_path@), joined(root@, parent_rel_path@)),
        r matches Some(p) ==> p.0@ == joined(root@, rel_path@) && p.1@ == joined(root@, parent_rel_path@),
{
    let path = join_path(root, rel_path);
    let parent = join_path(root, parent_rel_path);
    if paths_equal(path.as_str(), parent.as_str()) {
        None
    } else {
        Some((path, parent))
    }
}

} // verus!
