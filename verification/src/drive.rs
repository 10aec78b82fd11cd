//! Finding the drive that holds a path, from the kernel's mount table.
//!
//! Reading `/proc/self/mountinfo`, canonicalizing device paths and listing
//! `/dev/disk/by-uuid` and `/dev/disk/by-label` is the caller's part; this
//! module parses the mount table, picks the mount point that holds a path and
//! assembles the drive's metadata.

use vstd::prelude::*;
use crate::models::DriveMetadata;
use crate::paths::{path_starts_with, starts_with};
use crate::text::{chars_of, chars_start_with, chars_sub, opt_chars, string_from_chars};
use crate::words::{first_match, find_first, lines, replace_all, replace_chars, split_lines, split_words, words};

verus! {

/// One mount, as a line of the mount table describes it.
#[derive(Debug, Clone)]
pub struct MountInfo {
    pub mount_point: String,
    pub fs_type: Option<String>,
    pub mount_source: Option<String>,
}

pub struct MountInfoView {
    pub mount_point: Seq<char>,
    pub fs_type: Option<Seq<char>>,
    pub mount_source: Option<Seq<char>>,
}

impl View for MountInfo {
    type V = MountInfoView;

    open spec fn view(&self) -> MountInfoView {
        MountInfoView {
            mount_point: self.mount_point@,
            fs_type: opt_chars(self.fs_type),
            mount_source: opt_chars(self.mount_source),
        }
    }
}

pub open spec fn opt_mount_view(m: Option<MountInfo>) -> Option<MountInfoView> {
    match m {
        Some(m) => Some(m@),
        None => None,
    }
}

/// The mount table's escapes for space, tab, newline and backslash, undone
/// in that order.
pub open spec fn unescape(s: Seq<char>) -> Seq<char> {
    let a = replace_all(s, seq!['\\', '0', '4', '0'], seq![' ']);
    let b = replace_all(a, seq!['\\', '0', '1', '1'], seq!['\t']);
    let c = replace_all(b, seq!['\\', '0', '1', '2'], seq!['\n']);
    replace_all(c, seq!['\\', '1', '3', '4'], seq!['\\'])
}

/// A mount table line: the fifth field before ` - ` is the mount point, the
/// first two fields after it are the file system type and the mount source.
pub open spec fn parse_mountinfo(line: Seq<char>) -> Option<MountInfoView> {
    match first_match(line, seq![' ', '-', ' '], 0) {
        None => None,
        Some(k) => {
            let left = words(line.take(k));
            let right = words(line.skip(k + 3));
            if left.len() < 5 {
                None
            } else {
                Some(MountInfoView {
                    mount_point: unescape(left[4]),
                    fs_type: if right.len() > 0 { Some(right[0]) } else { None },
                    mount_source: if right.len() > 1 { Some(right[1]) } else { None },
                })
            }
        },
    }
}

/// Length in bytes of the UTF-8 encoding of `s` (as a string in memory
/// reports it).
pub open spec fn utf8_len(s: Seq<char>) -> usize {
    vstd::utf8::encode_utf8(s).len() as usize
}

/// The mount holding `path` among the given lines: of the mounts whose
/// mount point is a prefix of `path`, the one with the longest mount point,
/// the earliest on a tie.
pub open spec fn best_mount(ls: Seq<Seq<char>>, path: Seq<char>) -> Option<MountInfoView>
    decreases ls.len(),
{
    if ls.len() == 0 {
        None
    } else {
        let best = best_mount(ls.drop_last(), path);
        match parse_mountinfo(ls.last()) {
            None => best,
            Some(mi) => {
                if !starts_with(path, mi.mount_point) {
                    best
                } else {
                    match best {
                        None => Some(mi),
                        Some(b) => if utf8_len(mi.mount_point) > utf8_len(b.mount_point) {
                            Some(mi)
                        } else {
                            best
                        },
                    }
                }
            },
        }
    }
}

fn pattern4(a: char, b: char, c: char, d: char) -> (r: Vec<char>)
    ensures
        r@ == seq![a, b, c, d],
{
    let mut r: Vec<char> = Vec::new();
    r.push(a);
    r.push(b);
    r.push(c);
    r.push(d);
    assert(r@ =~= seq![a, b, c, d]);
    r
}

fn single(a: char) -> (r: Vec<char>)
    ensures
        r@ == seq![a],
{
    let mut r: Vec<char> = Vec::new();
    r.push(a);
    assert(r@ =~= seq![a]);
    r
}

fn unescape_chars(s: &[char]) -> (r: Vec<char>)
    ensures
        r@ == unescape(s@),
{
    let a = replace_chars(s, pattern4('\\', '0', '4', '0').as_slice(), single(' ').as_slice());
    let b = replace_chars(a.as_slice(), pattern4('\\', '0', '1', '1').as_slice(), single('\t').as_slice());
    let c = replace_chars(b.as_slice(), pattern4('\\', '0', '1', '2').as_slice(), single('\n').as_slice());
    replace_chars(c.as_slice(), pattern4('\\', '1', '3', '4').as_slice(), single('\\').as_slice())
}

/// Undoes the mount table's octal escapes of space, tab, newline and
/// backslash.
pub fn unescape_mountinfo(s: &str) -> (r: String)
    ensures
        r@ == unescape(s@),
{
    let cs = chars_of(s);
    let u = unescape_chars(cs.as_slice());
    string_from_chars(u.as_slice())
}

fn parse_mountinfo_chars(line: &[char]) -> (r: Option<MountInfo>)
    ensures
        opt_mount_view(r) == parse_mountinfo(line@),
{
    let mut sep: Vec<char> = Vec::new();
    sep.push(' ');
    sep.push('-');
    sep.push(' ');
    assert(sep@ =~= seq![' ', '-', ' ']);
    let k = match find_first(line, sep.as_slice()) {
        None => return None,
        Some(k) => k,
    };
    proof {
        lemma_first_match_bounds(line@, sep@, 0);
    }
    assert(k + 3 <= line@.len());
    let left_chars = chars_sub(line, 0, k);
    assert(left_chars@ =~= line@.take(k as int));
    let n = line.len();
    assert(k + 3 <= n);
    let right_chars = chars_sub(line, k + 3, n);
    assert(right_chars@ =~= line@.skip(k + 3));
    let left = split_words(left_chars.as_slice());
    if left.len() < 5 {
        return None;
    }
    let right = split_words(right_chars.as_slice());
    assert(left.deep_view()[4] == left@[4]@);
    let mount_point = string_from_chars(unescape_chars(left[4].as_slice()).as_slice());
    let fs_type = if right.len() > 0 {
        assert(right.deep_view()[0] == right@[0]@);
        Some(string_from_chars(right[0].as_slice()))
    } else {
        None
    };
    let mount_source = if right.len() > 1 {
        assert(right.deep_view()[1] == right@[1]@);
        Some(string_from_chars(right[1].as_slice()))
    } else {
        None
    };
    Some(MountInfo { mount_point, fs_type, mount_source })
}

pub proof fn lemma_first_match_bounds(s: Seq<char>, pat: Seq<char>, k: int)
    ensures
        first_match(s, pat, k) matches Some(j) ==> k <= j && j + pat.len() <= s.len()
            && s.subrange(j, j + pat.len()) == pat,
    decreases s.len() - k,
{
    if k < 0 || k >= s.len() || k + pat.len() > s.len() {
    } else if s.subrange(k, k + pat.len()) == pat {
    } else {
        lemma_first_match_bounds(s, pat, k + 1);
    }
}

/// Parses one line of `/proc/self/mountinfo`.
pub fn parse_mountinfo_line(line: &str) -> (r: Option<MountInfo>)
    ensures
        opt_mount_view(r) == parse_mountinfo(line@),
{
    let cs = chars_of(line);
    parse_mountinfo_chars(cs.as_slice())
}

/// The mount that holds `path`, from the text of the mount table.
pub fn best_mount_for_path(mountinfo: &str, path: &str) -> (r: Option<MountInfo>)
    ensures
        opt_mount_view(r) == best_mount(lines(mountinfo@), path@),
{
    let cs = chars_of(mountinfo);
    let ls = split_lines(cs.as_slice());
    let ghost all = ls.deep_view();
    let mut best: Option<MountInfo> = None;
    let mut i: usize = 0;
    while i < ls.len()
        invariant
            i <= ls@.len(),
            all == ls.deep_view(),
            all == lines(mountinfo@),
            opt_mount_view(best) == best_mount(all.take(i as int), path@),
        decreases ls@.len() - i,
    {
        let ghost t = all.take(i + 1);
        assert(t.drop_last() =~~= all.take(i as int));
        assert(t.last() == ls@[i as int]@);
        let parsed = parse_mountinfo_chars(ls[i].as_slice());
        let ghost prev = opt_mount_view(best);
        assert(prev == best_mount(t.drop_last(), path@));
        match parsed {
            None => {},
            Some(mi) => {
                assert(parse_mountinfo(t.last()) == Some(mi@));
                if path_starts_with(path, mi.mount_point.as_str()) {
                    let new_len = mi.mount_point.as_str().len();
                    assert(new_len == utf8_len(mi@.mount_point));
                    let replace = match &best {
                        None => true,
                        Some(cur) => {
                            let cur_len = cur.mount_point.as_str().len();
                            assert(cur_len == utf8_len(cur@.mount_point));
                            new_len > cur_len
                        },
                    };
                    if replace {
                        best = Some(mi);
                    }
                }
            },
        }
        i = i + 1;
    }
    assert(all.take(ls@.len() as int) =~~= all);
    best
}

/// The mount's source when it is a device under `/dev/`.
pub open spec fn device_of(m: MountInfoView) -> Option<Seq<char>> {
    match m.mount_source {
        Some(src) => if src.len() >= 5 && src.take(5) == seq!['/', 'd', 'e', 'v', '/'] {
            Some(src)
        } else {
            None
        },
        None => None,
    }
}

/// The mount's source, where it names a device under `/dev/`.
pub fn mount_device(m: &MountInfo) -> (r: Option<String>)
    ensures
        opt_chars(r) == device_of(m@),
{
    match &m.mount_source {
        None => None,
        Some(src) => {
            let cs = chars_of(src.as_str());
            let mut dev: Vec<char> = Vec::new();
            dev.push('/');
            dev.push('d');
            dev.push('e');
            dev.push('v');
            dev.push('/');
            assert(dev@ =~= seq!['/', 'd', 'e', 'v', '/']);
            if chars_start_with(cs.as_slice(), dev.as_slice()) {
                Some(string_from_chars(cs.as_slice()))
            } else {
                None
            }
        },
    }
}

/// An entry of a `/dev/disk/by-*` directory: its name and the canonical
/// path of the device it links to.
#[derive(Debug, Clone)]
pub struct DiskIdEntry {
    pub name: String,
    pub target: String,
}

/// The name of the first entry whose target is `dev`.
pub open spec fn first_disk_id(entries: Seq<DiskIdEntry>, dev: Seq<char>) -> Option<Seq<char>>
    decreases entries.len(),
{
    if entries.len() == 0 {
        None
    } else if entries[0].target@ == dev {
        Some(entries[0].name@)
    } else {
        first_disk_id(entries.skip(1), dev)
    }
}

/// The id under which a directory of disk ids lists the device `dev`.
pub fn find_disk_id(dev: &str, entries: &[DiskIdEntry]) -> (r: Option<String>)
    ensures
        opt_chars(r) == first_disk_id(entries@, dev@),
{
    let d = chars_of(dev);
    let mut i: usize = 0;
    assert(entries@.skip(0) =~= entries@);
    while i < entries.len()
        invariant
            i <= entries@.len(),
            d@ == dev@,
            first_disk_id(entries@, dev@) == first_disk_id(entries@.skip(i as int), dev@),
        decreases entries@.len() - i,
    {
        let ghost rest = entries@.skip(i as int);
        assert(rest[0] == entries@[i as int]);
        assert(rest.skip(1) =~= entries@.skip(i + 1));
        let t = chars_of(entries[i].target.as_str());
        if crate::text::chars_eq(t.as_slice(), d.as_slice()) {
            let n = chars_of(entries[i].name.as_str());
            return Some(string_from_chars(n.as_slice()));
        }
        i = i + 1;
    }
    None
}

/// The drive metadata of a path: nothing where no mount holds it; else the
/// mount's file system type, and, where the mount's source is a device under
/// `/dev/`, the ids under which the disk-id directories list that device
/// (given canonicalized).
pub open spec fn probed(
    mount: Option<MountInfoView>,
    device: Option<Seq<char>>,
    by_uuid: Seq<DiskIdEntry>,
    by_label: Seq<DiskIdEntry>,
) -> (Option<Seq<char>>, Option<Seq<char>>, Option<Seq<char>>) {
    match mount {
        None => (None, None, None),
        Some(m) => match (device_of(m), device) {
            (Some(_), Some(d)) => (first_disk_id(by_uuid, d), first_disk_id(by_label, d), m.fs_type),
            _ => (None, None, m.fs_type),
        },
    }
}

/// Assembles the drive metadata of a path from the mount that holds it, the
/// canonical path of that mount's device, and the `/dev/disk/by-uuid` and
/// `/dev/disk/by-label` entries; the device is looked up only where the
/// mount's own source is under `/dev/`.
pub fn probe_for_path(
    mount: Option<MountInfo>,
    device: Option<String>,
    by_uuid: &[DiskIdEntry],
    by_label: &[DiskIdEntry],
) -> (r: DriveMetadata)
    ensures
        (opt_chars(r.id), opt_chars(r.label), opt_chars(r.fs_type))
            == probed(opt_mount_view(mount), opt_chars(device), by_uuid@, by_label@),
{
    match mount {
        None => DriveMetadata { id: None, label: None, fs_type: None },
        Some(m) => {
            let is_device = mount_device(&m).is_some();
            let (id, label) = match &device {
                Some(d) => if is_device {
                    (find_disk_id(d.as_str(), by_uuid), find_disk_id(d.as_str(), by_label))
                } else {
                    (None, None)
                },
                None => (None, None),
            };
            DriveMetadata { id, label, fs_type: m.fs_type }
        },
    }
}

} // verus!
