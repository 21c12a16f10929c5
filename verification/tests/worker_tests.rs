//! Tests of the dispatcher's response building, the worker step machine,
//! the name scheme and the statistics summary.

use backup::dispatch::BackupResponse;
use backup::dispatch::ErrorKind;
use backup::dispatch::File;
use backup::dispatch::Statistics;
use backup::dispatch::Task;
use backup::dispatch::UnitResult;
use backup::dispatch::summarize;
use backup::endpoint::Endpoint;
use backup::keys::Key;
use backup::region::Peer;
use backup::region::Region;
use backup::region::RegionInfo;
use backup::region::StateRole;
use backup::worker::WorkerAction;
use backup::worker::WorkerEvent;
use backup::worker::WorkerPhase;
use backup::worker::backup_file_name;
use backup::worker::read_context;
use backup::worker::step;

fn leader_region(id: u64, start_raw: &[u8], end_raw: &[u8], epoch_version: u64) -> RegionInfo {
    let start_key = if start_raw.is_empty() {
        Vec::new()
    } else {
        Key::from_raw(&start_raw.to_vec()).into_encoded()
    };
    let end_key = if end_raw.is_empty() {
        Vec::new()
    } else {
        Key::from_raw(&end_raw.to_vec()).into_encoded()
    };
    RegionInfo {
        region: Region {
            id,
            start_key,
            end_key,
            epoch_version,
            peers: vec![Peer { id: 10 + id, store_id: 1 }],
        },
        role: StateRole::Leader,
    }
}

fn ok_file(name: &[u8]) -> File {
    File {
        name: name.to_vec(),
        size: 42,
        checksum: 7,
        start_key: Vec::new(),
        end_key: Vec::new(),
        start_version: 0,
        end_version: 0,
    }
}

#[test]
fn test_response_stamping() {
    let endpoint = Endpoint::new(1, vec![leader_region(2, b"1", b"2", 5)]);
    let task = Task::new(b"1".to_vec(), b"2".to_vec(), 9, 9);
    let ranges = endpoint.run(&task).unwrap();
    assert_eq!(ranges.len(), 1);
    let results: Vec<UnitResult> = ranges
        .into_iter()
        .map(|brange| UnitResult {
            brange,
            result: Ok((
                vec![ok_file(b"1_2_5.sst"), ok_file(b"1_2_5.log")],
                Statistics { keys_scanned: 3, bytes_scanned: 99 },
            )),
        })
        .collect();
    let resps = endpoint.handle_backup_task(&task, results);
    assert_eq!(resps.len(), 2);
    let resp = resps[0].as_ref().unwrap();
    assert_eq!(resp.start_key, b"1".to_vec());
    assert_eq!(resp.end_key, b"2".to_vec());
    assert!(resp.error.is_none());
    assert_eq!(resp.files.len(), 2);
    for file in &resp.files {
        assert_eq!(file.start_key, resp.start_key);
        assert_eq!(file.end_key, resp.end_key);
        assert_eq!(file.start_version, 9);
        assert_eq!(file.end_version, 9);
    }
    assert_eq!(resp.files[0].name, b"1_2_5.sst".to_vec());
    assert_eq!(resp.files[0].size, 42);
    assert_eq!(resp.files[0].checksum, 7);
}

fn responses_with(
    endpoint: &Endpoint,
    task: &Task,
    failing: Option<usize>,
) -> Vec<Option<BackupResponse>> {
    let ranges = endpoint.run(task).unwrap();
    let results: Vec<UnitResult> = ranges
        .into_iter()
        .enumerate()
        .map(|(i, brange)| UnitResult {
            brange,
            result: if failing == Some(i) {
                Err(ErrorKind::ScanFailure)
            } else {
                Ok((Vec::new(), Statistics::default()))
            },
        })
        .collect();
    endpoint.handle_backup_task(task, results)
}

#[test]
fn test_error_isolation() {
    let endpoint = Endpoint::new(
        1,
        vec![
            leader_region(1, b"", b"1", 1),
            leader_region(2, b"1", b"2", 1),
            leader_region(3, b"3", b"4", 1),
        ],
    );
    let task = Task::new(Vec::new(), Vec::new(), 1, 1);
    let clean = responses_with(&endpoint, &task, None);
    let failed = responses_with(&endpoint, &task, Some(1));
    assert_eq!(clean.len(), failed.len());
    for (i, (a, b)) in clean.iter().zip(failed.iter()).enumerate() {
        match (a, b) {
            (Some(ra), Some(rb)) => {
                // The range is the same either way.
                assert_eq!(ra.start_key, rb.start_key);
                assert_eq!(ra.end_key, rb.end_key);
                if i == 1 {
                    assert_eq!(rb.error, Some(ErrorKind::ScanFailure));
                    assert!(rb.files.is_empty());
                    assert_eq!(rb.start_key, b"1".to_vec());
                    assert_eq!(rb.end_key, b"2".to_vec());
                } else {
                    // Sibling units are untouched by the injected failure.
                    assert!(ra.error.is_none() && rb.error.is_none());
                    assert_eq!(ra.files.len(), rb.files.len());
                }
            }
            (None, None) => assert_eq!(i, clean.len() - 1),
            _ => panic!("streams diverge at {}", i),
        }
    }
}

#[test]
fn test_ordering_freedom() {
    let endpoint = Endpoint::new(
        1,
        vec![
            leader_region(1, b"", b"1", 1),
            leader_region(2, b"1", b"2", 1),
            leader_region(3, b"3", b"4", 1),
        ],
    );
    let task = Task::new(Vec::new(), Vec::new(), 1, 1);
    let make_results = |reverse: bool| {
        let mut ranges = endpoint.run(&task).unwrap();
        if reverse {
            ranges.reverse();
        }
        ranges
            .into_iter()
            .map(|brange| UnitResult {
                brange,
                result: Ok((Vec::new(), Statistics::default())),
            })
            .collect::<Vec<UnitResult>>()
    };
    let forward = endpoint.handle_backup_task(&task, make_results(false));
    let backward = endpoint.handle_backup_task(&task, make_results(true));
    let ranges_of = |resps: &Vec<Option<BackupResponse>>| {
        let mut pairs: Vec<(Vec<u8>, Vec<u8>)> = resps
            .iter()
            .filter_map(Option::as_ref)
            .map(|r| (r.start_key.clone(), r.end_key.clone()))
            .collect();
        pairs.sort();
        pairs
    };
    // The answered range set does not depend on completion order.
    assert_eq!(ranges_of(&forward), ranges_of(&backward));
}

#[test]
fn test_backup_file_name() {
    let info = leader_region(5, b"1", b"2", 7);
    assert_eq!(backup_file_name(2, &info.region), b"2_5_7".to_vec());
    let wide = leader_region(345, b"1", b"2", 6789);
    assert_eq!(backup_file_name(12, &wide.region), b"12_345_6789".to_vec());
    let zero = leader_region(0, b"1", b"2", 0);
    assert_eq!(backup_file_name(0, &zero.region), b"0_0_0".to_vec());
}

#[test]
fn test_read_context() {
    let endpoint = Endpoint::new(1, vec![leader_region(2, b"1", b"2", 5)]);
    let ranges = endpoint.seek_backup_range(None, None);
    let ctx = read_context(&ranges[0]);
    assert_eq!(ctx.region_id, 2);
    assert_eq!(ctx.epoch_version, 5);
    assert_eq!(ctx.peer, Peer { id: 12, store_id: 1 });
}

#[test]
fn test_worker_success_path() {
    let (phase, action) = step(
        WorkerPhase::Snapshotting,
        WorkerEvent::SnapshotDone { error: None },
    );
    assert_eq!(phase, WorkerPhase::Building);
    assert!(matches!(action, WorkerAction::OpenBuilder));
    let (phase, action) = step(phase, WorkerEvent::BuilderDone { ok: true });
    assert_eq!(phase, WorkerPhase::Scanning);
    assert!(matches!(action, WorkerAction::PullBatch));
    let (phase, action) = step(phase, WorkerEvent::BatchDone { entries: Some(17) });
    assert_eq!(phase, WorkerPhase::Writing);
    assert!(matches!(action, WorkerAction::WriteBatch));
    let (phase, action) = step(phase, WorkerEvent::WriteDone { ok: true });
    assert_eq!(phase, WorkerPhase::Scanning);
    assert!(matches!(action, WorkerAction::PullBatch));
    let (phase, action) = step(phase, WorkerEvent::BatchDone { entries: Some(0) });
    assert_eq!(phase, WorkerPhase::Saving);
    assert!(matches!(action, WorkerAction::Save));
    let files = vec![ok_file(b"1_2_5.sst")];
    let (phase, action) = step(phase, WorkerEvent::SaveDone { files: Some(files) });
    assert_eq!(phase, WorkerPhase::Done);
    match action {
        WorkerAction::Emit(Ok(saved)) => {
            assert_eq!(saved.len(), 1);
            assert_eq!(saved[0].name, b"1_2_5.sst".to_vec());
        }
        _ => panic!("the save must emit the uploaded files"),
    }
}

#[test]
fn test_worker_failure_kinds() {
    let cases: Vec<(WorkerPhase, WorkerEvent, ErrorKind)> = vec![
        (
            WorkerPhase::Snapshotting,
            WorkerEvent::SnapshotDone { error: Some(ErrorKind::SnapshotUnavailable) },
            ErrorKind::SnapshotUnavailable,
        ),
        (
            WorkerPhase::Snapshotting,
            WorkerEvent::SnapshotDone { error: Some(ErrorKind::StaleTopology) },
            ErrorKind::StaleTopology,
        ),
        (
            WorkerPhase::Building,
            WorkerEvent::BuilderDone { ok: false },
            ErrorKind::SinkFailure,
        ),
        (
            WorkerPhase::Scanning,
            WorkerEvent::BatchDone { entries: None },
            ErrorKind::ScanFailure,
        ),
        (
            WorkerPhase::Writing,
            WorkerEvent::WriteDone { ok: false },
            ErrorKind::SinkFailure,
        ),
        (
            WorkerPhase::Saving,
            WorkerEvent::SaveDone { files: None },
            ErrorKind::SinkFailure,
        ),
    ];
    for (from, event, expect) in cases {
        let (phase, action) = step(from, event);
        assert_eq!(phase, WorkerPhase::Done);
        match action {
            WorkerAction::Emit(Err(kind)) => assert_eq!(kind, expect),
            _ => panic!("a failing call must emit its unit-scoped error"),
        }
    }
}

#[test]
fn test_statistics_saturate() {
    let mut summary = Statistics { keys_scanned: u64::MAX - 1, bytes_scanned: 10 };
    summary.add(&Statistics { keys_scanned: 5, bytes_scanned: 1 });
    assert_eq!(summary.keys_scanned, u64::MAX);
    assert_eq!(summary.bytes_scanned, 11);
}

#[test]
fn test_summarize() {
    let endpoint = Endpoint::new(
        1,
        vec![leader_region(1, b"", b"1", 1), leader_region(2, b"1", b"2", 1)],
    );
    let ranges = endpoint.seek_backup_range(None, None);
    let mut results = Vec::new();
    let mut expect_keys = 0u64;
    for (i, brange) in ranges.into_iter().enumerate() {
        if i == 0 {
            results.push(UnitResult {
                brange,
                result: Ok((
                    Vec::new(),
                    Statistics { keys_scanned: 40, bytes_scanned: 400 },
                )),
            });
            expect_keys += 40;
        } else {
            // A failed unit contributes nothing to the summary.
            results.push(UnitResult { brange, result: Err(ErrorKind::StaleTopology) });
        }
    }
    let summary = summarize(&results);
    assert_eq!(summary.keys_scanned, expect_keys);
    assert_eq!(summary.bytes_scanned, 400);
}
