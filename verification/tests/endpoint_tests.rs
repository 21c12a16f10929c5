//! End-to-end tests of the planner and the dispatcher.

use backup::dispatch::Statistics;
use backup::dispatch::Task;
use backup::dispatch::UnitResult;
use backup::endpoint::BackupRange;
use backup::endpoint::Endpoint;
use backup::keys::Key;
use backup::region::Peer;
use backup::region::Region;
use backup::region::RegionInfo;
use backup::region::StateRole;

fn new_peer(id: u64, store_id: u64) -> Peer {
    Peer { id, store_id }
}

fn new_endpoint(regions: Vec<(Vec<u8>, Vec<u8>, u64)>) -> Endpoint {
    let region_info = regions
        .into_iter()
        .map(|(mut start_key, mut end_key, id)| {
            if !start_key.is_empty() {
                start_key = Key::from_raw(&start_key).into_encoded();
            }
            if !end_key.is_empty() {
                end_key = Key::from_raw(&end_key).into_encoded();
            }
            RegionInfo {
                region: Region {
                    id,
                    start_key,
                    end_key,
                    epoch_version: 1,
                    peers: vec![new_peer(1, 1)],
                },
                role: StateRole::Leader,
            }
        })
        .collect();
    Endpoint::new(1, region_info)
}

fn default_regions() -> Vec<(Vec<u8>, Vec<u8>, u64)> {
    vec![
        (b"".to_vec(), b"1".to_vec(), 1),
        (b"1".to_vec(), b"2".to_vec(), 2),
        (b"3".to_vec(), b"4".to_vec(), 3),
        (b"7".to_vec(), b"".to_vec(), 4),
    ]
}

fn raw_of(bound: Option<Key>) -> Vec<u8> {
    bound.map_or_else(Vec::new, |k| k.into_raw().unwrap())
}

#[test]
fn test_seek_range() {
    let endpoint = new_endpoint(default_regions());

    let t = |start_key: &[u8], end_key: &[u8], expect: Vec<(&[u8], &[u8])>| {
        let start_key = if start_key.is_empty() {
            None
        } else {
            Some(Key::from_raw(&start_key.to_vec()))
        };
        let end_key = if end_key.is_empty() {
            None
        } else {
            Some(Key::from_raw(&end_key.to_vec()))
        };
        let ranges: Vec<BackupRange> = endpoint.seek_backup_range(start_key, end_key);
        assert_eq!(
            ranges.len(),
            expect.len(),
            "got {:?}, expect {:?}",
            ranges,
            expect
        );
        for (a, b) in ranges.into_iter().zip(expect) {
            assert_eq!(raw_of(a.start_key), b.0);
            assert_eq!(raw_of(a.end_key), b.1);
        }
    };

    // Test whether responses contain correct range.
    let tt = |start_key: &[u8], end_key: &[u8], expect: Vec<(&[u8], &[u8])>| {
        let task = Task::new(start_key.to_vec(), end_key.to_vec(), 1, 1);
        let ranges = endpoint.run(&task).expect("a full backup task is accepted");
        let results: Vec<UnitResult> = ranges
            .into_iter()
            .map(|brange| UnitResult {
                brange,
                result: Ok((Vec::new(), Statistics::default())),
            })
            .collect();
        let resps = endpoint.handle_backup_task(&task, results);
        let mut counter = 0;
        for a in resps.iter().filter_map(Option::as_ref) {
            counter += 1;
            assert!(
                expect
                    .iter()
                    .any(|b| { a.start_key == b.0 && a.end_key == b.1 }),
                "{:?} {:?}",
                resps,
                expect
            );
        }
        assert_eq!(counter, expect.len());
    };

    let case: Vec<(&[u8], &[u8], Vec<(&[u8], &[u8])>)> = vec![
        (b"", b"1", vec![(b"", b"1"), (b"1", b"1")]),
        (b"", b"2", vec![(b"", b"1"), (b"1", b"2")]),
        (b"1", b"2", vec![(b"1", b"2")]),
        (b"1", b"3", vec![(b"1", b"2"), (b"3", b"3")]),
        (b"1", b"4", vec![(b"1", b"2"), (b"3", b"4")]),
        (b"4", b"6", vec![]),
        (b"4", b"5", vec![]),
        (b"2", b"7", vec![(b"3", b"4"), (b"7", b"7")]),
        (b"3", b"", vec![(b"3", b"4"), (b"7", b"")]),
        (b"5", b"", vec![(b"7", b"")]),
        (b"7", b"", vec![(b"7", b"")]),
        (
            b"",
            b"",
            vec![(b"", b"1"), (b"1", b"2"), (b"3", b"4"), (b"7", b"")],
        ),
    ];
    for (start_key, end_key, ranges) in case {
        t(start_key, end_key, ranges.clone());
        tt(start_key, end_key, ranges);
    }
}

#[test]
fn test_sentinel_is_single_and_last() {
    let endpoint = new_endpoint(default_regions());
    let task = Task::new(Vec::new(), Vec::new(), 1, 1);
    let ranges = endpoint.run(&task).unwrap();
    let n_units = ranges.len();
    assert_eq!(n_units, 4);
    let results: Vec<UnitResult> = ranges
        .into_iter()
        .map(|brange| UnitResult {
            brange,
            result: Ok((Vec::new(), Statistics::default())),
        })
        .collect();
    let resps = endpoint.handle_backup_task(&task, results);
    assert_eq!(resps.len(), n_units + 1);
    assert!(resps.last().unwrap().is_none());
    assert_eq!(resps.iter().filter(|r| r.is_none()).count(), 1);
}

#[test]
fn test_empty_plan_yields_only_sentinel() {
    let endpoint = new_endpoint(default_regions());
    let task = Task::new(b"4".to_vec(), b"6".to_vec(), 1, 1);
    let ranges = endpoint.run(&task).unwrap();
    assert!(ranges.is_empty());
    let resps = endpoint.handle_backup_task(&task, Vec::new());
    assert_eq!(resps.len(), 1);
    assert!(resps[0].is_none());
}

#[test]
fn test_run_refuses_incremental_task() {
    let endpoint = new_endpoint(default_regions());
    let task = Task::new(Vec::new(), Vec::new(), 1, 2);
    assert!(!task.is_valid());
    assert!(endpoint.run(&task).is_none());
    // The refused task answers with only the sentinel.
    let resps = endpoint.handle_backup_task(&task, Vec::new());
    assert_eq!(resps.len(), 1);
    assert!(resps[0].is_none());
}

#[test]
fn test_non_leader_excluded() {
    let mut regions = Vec::new();
    for (i, (start, end, id)) in default_regions().into_iter().enumerate() {
        let mut info = new_endpoint(vec![(start, end, id)]).region_info.remove(0);
        if i == 1 {
            info.role = StateRole::Follower;
        }
        regions.push(info);
    }
    let endpoint = Endpoint::new(1, regions);
    let ranges = endpoint.seek_backup_range(None, None);
    let ids: Vec<u64> = ranges.iter().map(|r| r.region.id).collect();
    assert_eq!(ids, vec![1, 3, 4]);
}

#[test]
fn test_region_without_local_peer_skipped() {
    let mut regions = new_endpoint(default_regions()).region_info;
    regions[2].region.peers = vec![new_peer(9, 9)];
    let endpoint = Endpoint::new(1, regions);
    let ranges = endpoint.seek_backup_range(None, None);
    let ids: Vec<u64> = ranges.iter().map(|r| r.region.id).collect();
    assert_eq!(ids, vec![1, 2, 4]);
}
