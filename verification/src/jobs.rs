//! The scan jobs of the web interface: the form that starts one, the table
//! of jobs and how each job's status moves, and the pages of matches it
//! serves.

use vstd::prelude::*;
use crate::error::Error;
use crate::exact::{
    arranged, key_text, copy_members, duplicate_groups, exact_groups_largest_first, member_counts, views_of, ExactKey,
};
use crate::order::sorted_desc;
use crate::hex::hex_encode;
use crate::models::{FileListRow, ScanRootKind};
use crate::scan::{ScanCancelToken, ScanConfig, ScanProgress};
use crate::text::{append_str, string_from_chars, vec_from_str, chars_eq};
use crate::words::{trim_chars, trimmed};

verus! {

/// Where a job stands.
#[derive(Debug, Clone, Copy, PartialEq, Eq, Structural)]
pub enum JobStatus {
    Pending,
    Running,
    Completed,
    Cancelled,
    Failed,
}

impl JobStatus {
    /// The status as the web interface names it.
    pub fn name(self) -> (s: &'static str)
        ensures
            s@ == match self {
                JobStatus::Pending => "pending"@,
                JobStatus::Running => "running"@,
                JobStatus::Completed => "completed"@,
                JobStatus::Cancelled => "cancelled"@,
                JobStatus::Failed => "failed"@,
            },
    {
        match self {
            JobStatus::Pending => "pending",
            JobStatus::Running => "running",
            JobStatus::Completed => "completed",
            JobStatus::Cancelled => "cancelled",
            JobStatus::Failed => "failed",
        }
    }
}

/// A scan started from the web interface. Times are readings of a
/// monotonic clock, in milliseconds.
#[derive(Debug, Clone)]
pub struct ScanJob {
    pub id: u64,
    pub root: String,
    pub db_path: String,
    pub status: JobStatus,
    pub progress: Option<ScanProgress>,
    pub started_at_ms: u64,
    pub finished_at_ms: Option<u64>,
    pub error: Option<String>,
    pub cancel: ScanCancelToken,
}

/// The table of jobs: the id the next job gets, and the jobs, oldest first.
pub struct InnerState {
    pub next_id: u64,
    pub jobs: Vec<ScanJob>,
}

/// The most jobs the table keeps once a job has changed.
pub const MAX_JOBS: usize = 50;

/// What happened to a job.
#[derive(Debug, Clone)]
pub enum JobUpdate {
    /// The scan began at the given time.
    Started(u64),
    /// The scan reported progress.
    Progress(ScanProgress),
    /// The scan finished at the given time.
    Completed(u64),
    /// The scan stopped on request at the given time.
    Cancelled(u64),
    /// The scan failed, with this message, at the given time.
    Failed(String, u64),
}

/// The job after the update.
pub open spec fn updated(job: ScanJob, u: JobUpdate) -> ScanJob {
    match u {
        JobUpdate::Started(now) => ScanJob { status: JobStatus::Running, started_at_ms: now, ..job },
        JobUpdate::Progress(p) => ScanJob { progress: Some(p), ..job },
        JobUpdate::Completed(now) => ScanJob { status: JobStatus::Completed, finished_at_ms: Some(now), ..job },
        JobUpdate::Cancelled(now) => ScanJob { status: JobStatus::Cancelled, finished_at_ms: Some(now), ..job },
        JobUpdate::Failed(msg, now) => ScanJob {
            status: JobStatus::Failed,
            error: Some(msg),
            finished_at_ms: Some(now),
            ..job
        },
    }
}

/// The position of the first job with the id, if any.
pub open spec fn job_index(jobs: Seq<ScanJob>, id: u64) -> Option<int> {
    if exists|k: int| 0 <= k < jobs.len() && (#[trigger] jobs[k]).id == id {
        Some(choose|k: int| 0 <= k < jobs.len() && (#[trigger] jobs[k]).id == id
            && forall|q: int| 0 <= q < k ==> (#[trigger] jobs[q]).id != id)
    } else {
        None
    }
}

/// The newest `MAX_JOBS` jobs where there are more.
pub open spec fn kept_jobs(jobs: Seq<ScanJob>) -> Seq<ScanJob> {
    if jobs.len() > 50 {
        jobs.skip(jobs.len() - 50)
    } else {
        jobs
    }
}

fn copy_progress(p: &ScanProgress) -> (r: ScanProgress)
    ensures
        r == *p,
{
    ScanProgress {
        files_seen: p.files_seen,
        files_hashed: p.files_hashed,
        files_skipped: p.files_skipped,
        bytes_seen: p.bytes_seen,
        total_files: p.total_files,
        total_bytes: p.total_bytes,
        current_path: p.current_path.clone(),
    }
}

fn find_job(jobs: &Vec<ScanJob>, id: u64) -> (r: Option<usize>)
    ensures
        match r {
            Some(k) => k < jobs@.len() && jobs@[k as int].id == id && forall|q: int| 0 <= q < k ==> (#[trigger] jobs@[q]).id != id,
            None => forall|q: int| 0 <= q < jobs@.len() ==> (#[trigger] jobs@[q]).id != id,
        },
        r matches Some(k) ==> job_index(jobs@, id) == Some(k as int),
        r is None ==> job_index(jobs@, id) is None,
{
    let mut k: usize = 0;
    while k < jobs.len()
        invariant
            k <= jobs@.len(),
            forall|q: int| 0 <= q < k ==> (#[trigger] jobs@[q]).id != id,
        decreases jobs@.len() - k,
    {
        if jobs[k].id == id {
            proof {
                let c = choose|c: int| 0 <= c < jobs@.len() && (#[trigger] jobs@[c]).id == id
                    && forall|q: int| 0 <= q < c ==> (#[trigger] jobs@[q]).id != id;
                assert(jobs@[k as int].id == id);
                if c < k {
                    assert(jobs@[c].id != id);
                }
                if c > k {
                    assert(jobs@[k as int].id != id);
                }
            }
            return Some(k);
        }
        k = k + 1;
    }
    None
}

impl InnerState {
    pub fn new() -> (s: InnerState)
        ensures
            s.next_id == 1,
            s.jobs@.len() == 0,
    {
        InnerState { next_id: 1, jobs: Vec::new() }
    }

    /// Records a new pending job and returns its id.
    pub fn add_job(&mut self, root: String, db_path: String, cancel: ScanCancelToken, now_ms: u64) -> (id: u64)
        requires
            old(self).next_id < u64::MAX,
        ensures
            id == old(self).next_id,
            final(self).next_id == old(self).next_id + 1,
            final(self).jobs@ == old(self).jobs@.push(
                ScanJob {
                    id,
                    root,
                    db_path,
                    status: JobStatus::Pending,
                    progress: None,
                    started_at_ms: now_ms,
                    finished_at_ms: None,
                    error: None,
                    cancel,
                },
            ),
    {
        let id = self.next_id;
        self.next_id = self.next_id + 1;
        self.jobs.push(
            ScanJob {
                id,
                root,
                db_path,
                status: JobStatus::Pending,
                progress: None,
                started_at_ms: now_ms,
                finished_at_ms: None,
                error: None,
                cancel,
            },
        );
        id
    }

    /// Applies the update to the first job with the id, if there is one, and
    /// then keeps only the newest `MAX_JOBS` jobs.
    pub fn update_job(&mut self, id: u64, u: JobUpdate)
        ensures
            final(self).next_id == old(self).next_id,
            final(self).jobs@ == kept_jobs(
                match job_index(old(self).jobs@, id) {
                    Some(k) => old(self).jobs@.update(k, updated(old(self).jobs@[k], u)),
                    None => old(self).jobs@,
                },
            ),
            final(self).jobs@.len() <= MAX_JOBS || final(self).jobs@.len() == old(self).jobs@.len(),
    {
        let ghost before = self.jobs@;
        match find_job(&self.jobs, id) {
            Some(k) => {
                let mut job = self.jobs.remove(k);
                match u {
                    JobUpdate::Started(now) => {
                        job.status = JobStatus::Running;
                        job.started_at_ms = now;
                    },
                    JobUpdate::Progress(p) => {
                        job.progress = Some(copy_progress(&p));
                    },
                    JobUpdate::Completed(now) => {
                        job.status = JobStatus::Completed;
                        job.finished_at_ms = Some(now);
                    },
                    JobUpdate::Cancelled(now) => {
                        job.status = JobStatus::Cancelled;
                        job.finished_at_ms = Some(now);
                    },
                    JobUpdate::Failed(msg, now) => {
                        job.status = JobStatus::Failed;
                        job.error = Some(msg);
                        job.finished_at_ms = Some(now);
                    },
                }
                self.jobs.insert(k, job);
                assert(self.jobs@ =~= before.update(k as int, updated(before[k as int], u)));
            },
            None => {},
        }
        let ghost mid = self.jobs@;
        let ghost nid = self.next_id;
        let n = self.jobs.len();
        if n > MAX_JOBS {
            let excess = n - MAX_JOBS;
            let mut t: usize = 0;
            while t < excess
                invariant
                    t <= excess,
                    excess == mid.len() - 50,
                    self.jobs@ == mid.skip(t as int),
                    self.next_id == nid,
                decreases excess - t,
            {
                let _ = self.jobs.remove(0);
                assert(self.jobs@ =~= mid.skip(t + 1));
                t = t + 1;
            }
        }
    }

    /// Asks the first job with the id to stop, where it is running; says
    /// whether it asked.
    pub fn cancel_job(&self, id: u64) -> (r: bool)
        ensures
            r == (job_index(self.jobs@, id) matches Some(k) && self.jobs@[k].status == JobStatus::Running),
    {
        match find_job(&self.jobs, id) {
            Some(k) => {
                if self.jobs[k].status == JobStatus::Running {
                    self.jobs[k].cancel.cancel();
                    true
                } else {
                    false
                }
            },
            None => false,
        }
    }

    /// The fileset of the first job with the id.
    pub fn db_path_of(&self, id: u64) -> (r: Option<String>)
        ensures
            r == match job_index(self.jobs@, id) {
                Some(k) => Some(self.jobs@[k].db_path),
                None => None::<String>,
            },
    {
        match find_job(&self.jobs, id) {
            Some(k) => Some(self.jobs[k].db_path.clone()),
            None => None,
        }
    }
}

/// How long a job has been running at `now_ms`, and how long it ran if it
/// finished, in whole seconds; a clock reading before the start counts as
/// no time.
pub fn job_seconds(job: &ScanJob, now_ms: u64) -> (r: (u64, Option<u64>))
    ensures
        r.0 == (if now_ms >= job.started_at_ms {
            (now_ms - job.started_at_ms) / 1000
        } else {
            0
        }),
        r.1 == match job.finished_at_ms {
            Some(f) => Some(
                if f >= job.started_at_ms {
                    ((f - job.started_at_ms) / 1000) as u64
                } else {
                    0
                },
            ),
            None => None::<u64>,
        },
{
    let started = if now_ms >= job.started_at_ms {
        (now_ms - job.started_at_ms) / 1000
    } else {
        0
    };
    let finished = match job.finished_at_ms {
        Some(f) => Some(
            if f >= job.started_at_ms {
                (f - job.started_at_ms) / 1000
            } else {
                0
            },
        ),
        None => None,
    };
    (started, finished)
}

/// A scan asked for by the web form: what to scan, and the fileset to
/// write where one was named.
pub struct ScanRequest {
    pub config: ScanConfig,
    pub db_path: Option<String>,
}

pub open spec fn opt_text(o: Option<&str>) -> Option<Seq<char>> {
    match o {
        Some(s) => Some(s@),
        None => None,
    }
}

/// The value held to `lo..=hi`.
pub open spec fn clamp_u32(x: u32, lo: u32, hi: u32) -> u32 {
    if x < lo {
        lo
    } else if x > hi {
        hi
    } else {
        x
    }
}

fn clamp_value(x: u32, lo: u32, hi: u32) -> (r: u32)
    requires
        lo <= hi,
    ensures
        r == clamp_u32(x, lo, hi),
{
    if x < lo {
        lo
    } else if x > hi {
        hi
    } else {
        x
    }
}

/// Reads the web form that starts a scan: the root, trimmed, must not be
/// empty; the root is a drive only where the form says `drive`; a fileset
/// path, trimmed, is used where not empty; snapshots are taken where the
/// box is ticked, 3 per video of at most 1024 pixels unless the form says
/// otherwise, held to 1..=10 and 128..=4096.
pub fn scan_request(
    root: &str,
    root_kind: Option<&str>,
    db_path: Option<&str>,
    capture_snapshots: bool,
    snapshots_per_video: Option<u32>,
    snapshot_max_dim: Option<u32>,
) -> (r: Result<ScanRequest, Error>)
    ensures
        trimmed(root@).len() == 0 <==> r is Err,
        r matches Err(e) ==> e matches Error::InvalidArgument(m) && m@ == "root path is required"@,
        r matches Ok(q) ==> {
            &&& q.config.root@ == trimmed(root@)
            &&& q.config.root_kind == (if opt_text(root_kind) == Some("drive"@) {
                ScanRootKind::Drive
            } else {
                ScanRootKind::Folder
            })
            &&& q.config.hash_files
            &&& q.config.perceptual_hashes
            &&& q.config.concurrent_processing
            &&& q.config.capture_snapshots == capture_snapshots
            &&& q.config.snapshots_per_video == clamp_u32(
                match snapshots_per_video {
                    Some(v) => v,
                    None => 3,
                },
                1,
                10,
            )
            &&& q.config.snapshot_max_dim == clamp_u32(
                match snapshot_max_dim {
                    Some(v) => v,
                    None => 1024,
                },
                128,
                4096,
            )
            &&& match db_path {
                Some(p) => if trimmed(p@).len() > 0 {
                    q.db_path matches Some(d) && d@ == trimmed(p@)
                } else {
                    q.db_path is None
                },
                None => q.db_path is None,
            }
        },
{
    let rv = vec_from_str(root);
    let rt = trim_chars(rv.as_slice());
    if rt.len() == 0 {
        return Err(Error::InvalidArgument("root path is required".to_owned()));
    }
    let kind = match root_kind {
        Some(k) => {
            let kv = vec_from_str(k);
            let drive = vec_from_str("drive");
            if chars_eq(kv.as_slice(), drive.as_slice()) {
                ScanRootKind::Drive
            } else {
                ScanRootKind::Folder
            }
        },
        None => ScanRootKind::Folder,
    };
    let db = match db_path {
        Some(p) => {
            let pv = vec_from_str(p);
            let pt = trim_chars(pv.as_slice());
            if pt.len() > 0 {
                Some(string_from_chars(pt.as_slice()))
            } else {
                None
            }
        },
        None => None,
    };
    let spv = match snapshots_per_video {
        Some(v) => v,
        None => 3,
    };
    let dim = match snapshot_max_dim {
        Some(v) => v,
        None => 1024,
    };
    let config = ScanConfig {
        root: string_from_chars(rt.as_slice()),
        root_kind: kind,
        hash_files: true,
        perceptual_hashes: true,
        capture_snapshots,
        snapshots_per_video: clamp_value(spv, 1, 10),
        snapshot_max_dim: clamp_value(dim, 128, 4096),
        concurrent_processing: true,
    };
    Ok(ScanRequest { config, db_path: db })
}

/// The page of files a request for matches reads: 200 files unless asked
/// otherwise, held to 1..=2000, from the given offset or the start.
pub fn matches_page(limit: Option<usize>, offset: Option<usize>) -> (r: (usize, usize))
    ensures
        r.0 == ({
            let l = match limit {
                Some(l) => l,
                None => 200,
            };
            if l < 1 {
                1
            } else if l > 2000 {
                2000
            } else {
                l
            }
        }),
        r.1 == match offset {
            Some(o) => o,
            None => 0,
        },
{
    let l = match limit {
        Some(l) => l,
        None => 200,
    };
    let l = if l < 1 {
        1
    } else if l > 2000 {
        2000
    } else {
        l
    };
    let o = match offset {
        Some(o) => o,
        None => 0,
    };
    (l, o)
}

pub fn exact_key_text(k: &ExactKey) -> (s: String)
    ensures
        s@ == key_text(k@),
{
    let mut v: Vec<char> = Vec::new();
    let h = match k {
        ExactKey::Blake3(h) => {
            append_str(&mut v, "blake3");
            hex_encode(h)
        },
        ExactKey::Sha256(h) => {
            append_str(&mut v, "sha256");
            hex_encode(h)
        },
    };
    append_str(&mut v, ":");
    append_str(&mut v, h.as_str());
    string_from_chars(v.as_slice())
}


/// A group of exact duplicates as the web interface lists it: the text of
/// its key, and its rows.
#[derive(Debug, Clone)]
pub struct KeyedGroup {
    pub key: String,
    pub members: Vec<usize>,
}

/// The groups of exact duplicates among `rows` as the web interface lists
/// them, largest first; groups of one size keep the order of their keys'
/// first appearance.
pub fn group_matches(rows: &[FileListRow]) -> (r: Vec<KeyedGroup>)
    ensures
        exists|o: Seq<usize>| #[trigger] sorted_desc(member_counts(duplicate_groups(rows@)), o) && r@.len() == o.len()
            && forall|k: int| 0 <= k < r@.len() ==> {
                let g = #[trigger] arranged(duplicate_groups(rows@), o)[k];
                r@[k].key@ == key_text(g.0) && r@[k].members@ == g.1
            },
{
    let groups = exact_groups_largest_first(rows);
    let ghost o = choose|o: Seq<usize>| #[trigger] sorted_desc(member_counts(duplicate_groups(rows@)), o)
        && views_of(groups@) == arranged(duplicate_groups(rows@), o);
    let ghost d = views_of(groups@);
    let mut out: Vec<KeyedGroup> = Vec::new();
    let mut k: usize = 0;
    while k < groups.len()
        invariant
            k <= groups@.len(),
            d == views_of(groups@),
            out@.len() == k,
            forall|q: int| 0 <= q < k ==> #[trigger] out@[q].key@ == key_text(d[q].0) && out@[q].members@ == d[q].1,
        decreases groups@.len() - k,
    {
        let g = &groups[k];
        assert(g@ == d[k as int]);
        let key = exact_key_text(&g.key);
        let members = copy_members(&g.members);
        out.push(KeyedGroup { key, members });
        k = k + 1;
    }
    proof {
        let dup = duplicate_groups(rows@);
        assert(sorted_desc(member_counts(dup), o));
        assert(arranged(dup, o).len() == o.len());
        assert forall|k: int| 0 <= k < out@.len() implies {
            let g = #[trigger] arranged(dup, o)[k];
            out@[k].key@ == key_text(g.0) && out@[k].members@ == g.1
        } by {
            assert(arranged(dup, o)[k] == d[k]);
        }
    }
    out
}

} // verus!
