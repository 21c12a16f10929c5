//! The dispatcher side of a backup task: task validation, per-unit
//! response building with range and timestamp stamping, statistics
//! aggregation, and the terminal sentinel.

use vstd::prelude::*;

use crate::endpoint::BackupRange;
use crate::endpoint::BackupRangeView;
use crate::endpoint::Endpoint;
use crate::endpoint::plan;
use crate::endpoint::range_wf;
use crate::keys::bound_from_raw;
use crate::keys::bound_into_raw;
use crate::keys::bound_of_raw;
use crate::keys::clone_bytes;
use crate::keys::decoded;

verus! {

/// The kinds of failure the endpoint reports.
#[derive(Clone, Copy, Debug, PartialEq, Eq, Structural)]
pub enum ErrorKind {
    /// The region directory was unavailable; the task ends with only the
    /// sentinel.
    PlanFailure,
    /// The region's epoch changed or leadership moved between planning and
    /// snapshot; unit-scoped.
    StaleTopology,
    /// The engine could not open a snapshot; unit-scoped.
    SnapshotUnavailable,
    /// The entry scan failed; unit-scoped.
    ScanFailure,
    /// Building or uploading the backup files failed; unit-scoped.
    SinkFailure,
    /// The task itself is malformed (an incremental request); only the
    /// sentinel is sent.
    InvalidTask,
}

/// Description of one backup file uploaded to the sink.
#[derive(Debug)]
pub struct File {
    pub name: Vec<u8>,
    pub size: u64,
    pub checksum: u64,
    /// Raw start of the range the file covers; stamped by the dispatcher.
    pub start_key: Vec<u8>,
    /// Raw end of the range the file covers; stamped by the dispatcher.
    pub end_key: Vec<u8>,
    pub start_version: u64,
    pub end_version: u64,
}

/// Mathematical value of a [`File`].
pub struct FileView {
    pub name: Seq<u8>,
    pub size: u64,
    pub checksum: u64,
    pub start_key: Seq<u8>,
    pub end_key: Seq<u8>,
    pub start_version: u64,
    pub end_version: u64,
}

impl View for File {
    type V = FileView;

    open spec fn view(&self) -> FileView {
        FileView {
            name: self.name@,
            size: self.size,
            checksum: self.checksum,
            start_key: self.start_key@,
            end_key: self.end_key@,
            start_version: self.start_version,
            end_version: self.end_version,
        }
    }
}

impl DeepView for File {
    type V = FileView;

    open spec fn deep_view(&self) -> FileView {
        self.view()
    }
}

/// Scan statistics of one unit.
#[derive(Clone, Copy, Debug, PartialEq, Eq, Structural)]
pub struct Statistics {
    pub keys_scanned: u64,
    pub bytes_scanned: u64,
}

/// Saturating sum of two counters.
pub open spec fn sat_add(a: u64, b: u64) -> u64 {
    if a + b > u64::MAX {
        u64::MAX
    } else {
        (a + b) as u64
    }
}

impl Default for Statistics {
    /// The empty statistics summary.
    fn default() -> (r: Statistics)
        ensures
            r.keys_scanned == 0,
            r.bytes_scanned == 0,
    {
        Statistics { keys_scanned: 0, bytes_scanned: 0 }
    }
}

/// Adds `b` into `a`, saturating at the counter limit.
pub fn sat_add_u64(a: u64, b: u64) -> (r: u64)
    ensures
        r == sat_add(a, b),
{
    if a > u64::MAX - b {
        u64::MAX
    } else {
        a + b
    }
}

impl Statistics {
    /// Folds another unit's statistics into this summary.
    pub fn add(&mut self, other: &Statistics)
        ensures
            final(self).keys_scanned == sat_add(old(self).keys_scanned, other.keys_scanned),
            final(self).bytes_scanned == sat_add(old(self).bytes_scanned, other.bytes_scanned),
    {
        self.keys_scanned = sat_add_u64(self.keys_scanned, other.keys_scanned);
        self.bytes_scanned = sat_add_u64(self.bytes_scanned, other.bytes_scanned);
    }
}

/// One streamed response: the raw range of one unit, and either its files
/// or its unit-scoped error.
#[derive(Debug)]
pub struct BackupResponse {
    pub start_key: Vec<u8>,
    pub end_key: Vec<u8>,
    pub files: Vec<File>,
    pub error: Option<ErrorKind>,
}

/// Mathematical value of a [`BackupResponse`].
pub struct BackupResponseView {
    pub start_key: Seq<u8>,
    pub end_key: Seq<u8>,
    pub files: Seq<FileView>,
    pub error: Option<ErrorKind>,
}

impl View for BackupResponse {
    type V = BackupResponseView;

    open spec fn view(&self) -> BackupResponseView {
        BackupResponseView {
            start_key: self.start_key@,
            end_key: self.end_key@,
            files: self.files.deep_view(),
            error: self.error,
        }
    }
}

impl DeepView for BackupResponse {
    type V = BackupResponseView;

    open spec fn deep_view(&self) -> BackupResponseView {
        self.view()
    }
}

/// What one snapshot worker reports for one unit: the unit it worked on,
/// and its files and statistics, or its unit-scoped error.
pub struct UnitResult {
    pub brange: BackupRange,
    pub result: Result<(Vec<File>, Statistics), ErrorKind>,
}

/// Mathematical value of a [`UnitResult`].
pub struct UnitResultView {
    pub brange: BackupRangeView,
    pub result: Result<(Seq<FileView>, Statistics), ErrorKind>,
}

impl View for UnitResult {
    type V = UnitResultView;

    open spec fn view(&self) -> UnitResultView {
        UnitResultView {
            brange: self.brange@,
            result: match self.result {
                Ok((ref files, stats)) => Ok((files.deep_view(), stats)),
                Err(kind) => Err(kind),
            },
        }
    }
}

impl DeepView for UnitResult {
    type V = UnitResultView;

    open spec fn deep_view(&self) -> UnitResultView {
        self.view()
    }
}

/// One backup task: a raw user range and the backup timestamps.
pub struct Task {
    pub start_key: Vec<u8>,
    pub end_key: Vec<u8>,
    pub start_ts: u64,
    pub end_ts: u64,
}

impl Task {
    /// A new task over the raw range `[start_key, end_key)` at the given
    /// timestamps.
    pub fn new(start_key: Vec<u8>, end_key: Vec<u8>, start_ts: u64, end_ts: u64) -> (t: Task)
        ensures
            t.start_key == start_key,
            t.end_key == end_key,
            t.start_ts == start_ts,
            t.end_ts == end_ts,
    {
        Task { start_key, end_key, start_ts, end_ts }
    }

    /// Only full backups are supported: the task is valid exactly when its
    /// two timestamps coincide.
    pub fn is_valid(&self) -> (r: bool)
        ensures
            r == (self.start_ts == self.end_ts),
    {
        self.start_ts == self.end_ts
    }
}

/// The raw bytes a unit bound maps back to on a response: the unbounded
/// side becomes the empty raw key, a key decodes to its raw bytes.
pub open spec fn raw_bound(b: Option<Seq<u8>>) -> Seq<u8> {
    match b {
        None => Seq::empty(),
        Some(k) => decoded(k).unwrap(),
    }
}

/// A file as it leaves the dispatcher: range and timestamps stamped from
/// the enclosing unit and task.
pub open spec fn stamp_file(f: FileView, s: Seq<u8>, e: Seq<u8>, start_ts: u64, end_ts: u64) -> FileView {
    FileView {
        name: f.name,
        size: f.size,
        checksum: f.checksum,
        start_key: s,
        end_key: e,
        start_version: start_ts,
        end_version: end_ts,
    }
}

/// The response the dispatcher emits for one unit result: the unit's raw
/// range, and either its stamped files or its error.
pub open spec fn response_of(u: UnitResultView, start_ts: u64, end_ts: u64) -> BackupResponseView {
    let s = raw_bound(u.brange.start_key);
    let e = raw_bound(u.brange.end_key);
    match u.result {
        Ok((files, _stats)) => BackupResponseView {
            start_key: s,
            end_key: e,
            files: files.map_values(|f: FileView| stamp_file(f, s, e, start_ts, end_ts)),
            error: None,
        },
        Err(kind) => BackupResponseView {
            start_key: s,
            end_key: e,
            files: Seq::empty(),
            error: Some(kind),
        },
    }
}

/// The full response stream for a list of unit results, in the order the
/// results arrived: one response per result, then the terminal sentinel.
pub open spec fn responses_of(results: Seq<UnitResultView>, start_ts: u64, end_ts: u64) -> Seq<
    Option<BackupResponseView>,
> {
    results.map_values(|u: UnitResultView| Some(response_of(u, start_ts, end_ts))).push(
        None::<BackupResponseView>,
    )
}

/// Builds the response for one unit result.
fn build_response(u: UnitResult, start_ts: u64, end_ts: u64) -> (r: BackupResponse)
    requires
        range_wf(u.brange@),
    ensures
        r@ == response_of(u@, start_ts, end_ts),
{
    let ghost uv = u@;
    let UnitResult { brange, result } = u;
    // A well-formed bound always decodes, so the fallback arms are
    // unreachable.
    let s = match bound_into_raw(brange.start_key) {
        Some(v) => v,
        None => {
            proof {
                assert(false);
            }
            Vec::new()
        },
    };
    let e = match bound_into_raw(brange.end_key) {
        Some(v) => v,
        None => {
            proof {
                assert(false);
            }
            Vec::new()
        },
    };
    match result {
        Ok((files, _stats)) => {
            let mut stamped: Vec<File> = Vec::new();
            let mut j: usize = 0;
            while j < files.len()
                invariant
                    j <= files.len(),
                    stamped@.len() == j,
                    s@ == raw_bound(uv.brange.start_key),
                    e@ == raw_bound(uv.brange.end_key),
                    forall|k: int|
                        0 <= k < j ==> #[trigger] stamped.deep_view()[k] == stamp_file(
                            files.deep_view()[k],
                            s@,
                            e@,
                            start_ts,
                            end_ts,
                        ),
                decreases files.len() - j,
            {
                let f = &files[j];
                let stamped_file = File {
                    name: clone_bytes(&f.name),
                    size: f.size,
                    checksum: f.checksum,
                    start_key: clone_bytes(&s),
                    end_key: clone_bytes(&e),
                    start_version: start_ts,
                    end_version: end_ts,
                };
                let ghost prevd = stamped.deep_view();
                let ghost newv = stamped_file@;
                proof {
                    assert(newv == stamp_file(files.deep_view()[j as int], s@, e@, start_ts, end_ts));
                }
                stamped.push(stamped_file);
                proof {
                    assert(stamped.deep_view() =~= prevd.push(newv));
                }
                j = j + 1;
            }
            proof {
                assert(stamped.deep_view() =~= files.deep_view().map_values(
                    |f: FileView| stamp_file(f, s@, e@, start_ts, end_ts),
                ));
            }
            BackupResponse { start_key: s, end_key: e, files: stamped, error: None }
        },
        Err(kind) => {
            let files: Vec<File> = Vec::new();
            proof {
                assert(files.deep_view() =~= Seq::<FileView>::empty());
            }
            BackupResponse { start_key: s, end_key: e, files, error: Some(kind) }
        },
    }
}

/// Folds the statistics of all successful units into a task summary.
pub open spec fn summary_of(results: Seq<UnitResultView>) -> Statistics
    decreases results.len(),
{
    if results.len() == 0 {
        Statistics { keys_scanned: 0, bytes_scanned: 0 }
    } else {
        let prev = summary_of(results.drop_last());
        match results.last().result {
            Ok((_files, stats)) => Statistics {
                keys_scanned: sat_add(prev.keys_scanned, stats.keys_scanned),
                bytes_scanned: sat_add(prev.bytes_scanned, stats.bytes_scanned),
            },
            Err(_) => prev,
        }
    }
}

/// Sums the statistics of the successful units.
pub fn summarize(results: &Vec<UnitResult>) -> (r: Statistics)
    ensures
        r == summary_of(results.deep_view()),
{
    let mut summary = Statistics::default();
    let mut i: usize = 0;
    proof {
        assert(results.deep_view().take(0) =~= Seq::<UnitResultView>::empty());
    }
    while i < results.len()
        invariant
            i <= results.len(),
            summary == summary_of(results.deep_view().take(i as int)),
        decreases results.len() - i,
    {
        match &results[i].result {
            Ok((_files, stats)) => {
                summary.add(stats);
            },
            Err(_) => {},
        }
        proof {
            assert(results.deep_view().take(i as int + 1).drop_last() =~= results.deep_view().take(
                i as int,
            ));
            assert(results.deep_view().take(i as int + 1).last() == results.deep_view()[i as int]);
        }
        i = i + 1;
    }
    proof {
        assert(results.deep_view().take(results.deep_view().len() as int) =~= results.deep_view());
    }
    summary
}

impl Endpoint {
    /// Turns the collected unit results of one task into the response
    /// stream: one response per result, in arrival order, each carrying the
    /// unit's raw range and either its stamped files or its error, followed
    /// by exactly one terminal sentinel, which is the last message.
    pub fn handle_backup_task(&self, task: &Task, results: Vec<UnitResult>) -> (resps: Vec<
        Option<BackupResponse>,
    >)
        requires
            forall|i: int| 0 <= i < results.deep_view().len() ==> range_wf(
                #[trigger] results.deep_view()[i].brange,
            ),
        ensures
            resps.deep_view() == responses_of(results.deep_view(), task.start_ts, task.end_ts),
            resps.deep_view().len() == results.deep_view().len() + 1,
            resps.deep_view().last() is None,
            forall|i: int|
                0 <= i < results.deep_view().len() ==> #[trigger] resps.deep_view()[i] == Some(
                    response_of(results.deep_view()[i], task.start_ts, task.end_ts),
                ),
    {
        let ghost orig = results.deep_view();
        let mut rest = results;
        let mut resps: Vec<Option<BackupResponse>> = Vec::new();
        proof {
            assert(rest.deep_view().skip(0) =~= orig.skip(0));
            assert(orig.skip(0) =~= orig);
        }
        while rest.len() > 0
            invariant
                resps@.len() + rest@.len() == orig.len(),
                rest.deep_view() == orig.skip(resps@.len() as int),
                forall|i: int| 0 <= i < orig.len() ==> range_wf(#[trigger] orig[i].brange),
                forall|i: int|
                    0 <= i < resps@.len() ==> #[trigger] resps.deep_view()[i] == Some(
                        response_of(orig[i], task.start_ts, task.end_ts),
                    ),
            decreases rest.len(),
        {
            let ghost done = resps@.len() as int;
            let ghost prevr = rest.deep_view();
            proof {
                assert(rest.deep_view()[0] == orig[done]);
                assert(range_wf(orig[done].brange));
            }
            let u = rest.remove(0);
            proof {
                assert(rest.deep_view() =~= prevr.drop_first());
                assert(prevr.drop_first() =~= orig.skip(done + 1));
            }
            let resp = build_response(u, task.start_ts, task.end_ts);
            let ghost prevd = resps.deep_view();
            let ghost rv = resp@;
            resps.push(Some(resp));
            proof {
                assert(resps.deep_view() =~= prevd.push(Some(rv)));
                assert(resps.deep_view()[done] == Some(rv));
            }
        }
        let ghost prevd = resps.deep_view();
        resps.push(None);
        proof {
            assert(resps.deep_view() =~= prevd.push(None::<BackupResponseView>));
            assert(orig.skip(orig.len() as int) =~= Seq::<UnitResultView>::empty());
            assert(resps.deep_view() =~= responses_of(orig, task.start_ts, task.end_ts));
        }
        resps
    }

    /// Accepts or refuses one task: a valid (full-backup) task is planned
    /// into its backup ranges; an incremental task is refused, and the
    /// caller sends only the sentinel.
    pub fn run(&self, task: &Task) -> (r: Option<Vec<BackupRange>>)
        ensures
            task.start_ts != task.end_ts ==> r is None,
            task.start_ts == task.end_ts ==> (r matches Some(v) && v.deep_view() == plan(
                self.region_info.deep_view(),
                bound_of_raw(task.start_key@),
                bound_of_raw(task.end_key@),
                self.store_id,
            )),
    {
        if !task.is_valid() {
            return None;
        }
        let start_key = bound_from_raw(&task.start_key);
        let end_key = bound_from_raw(&task.end_key);
        Some(self.seek_backup_range(start_key, end_key))
    }
}

} // verus!
