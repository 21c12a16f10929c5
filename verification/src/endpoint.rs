//! The backup endpoint: range-to-region planner.
//!
//! `Endpoint::seek_backup_range` intersects a user range with the regions
//! the directory reports, keeps the locally-led ones, clips each to the
//! intersection and returns the resulting backup ranges in ascending
//! encoded-key order.

use vstd::prelude::*;

use crate::keys::Key;
use crate::keys::bound_of;
use crate::keys::key_lt;
use crate::keys::key_wf;
use crate::keys::lex_lt;
use crate::region::Peer;
use crate::region::Region;
use crate::region::RegionInfo;
use crate::region::RegionInfoView;
use crate::region::RegionView;
use crate::region::StateRole;
use crate::region::find_peer;
use crate::region::find_peer_spec;
use crate::region::key_from_region;
use crate::region::region_wf;

verus! {

/// One planned unit of work: a region led from this store, with the user
/// range clipped to the region. `None` bounds are unbounded sides.
#[derive(Debug)]
pub struct BackupRange {
    pub start_key: Option<Key>,
    pub end_key: Option<Key>,
    pub region: Region,
    pub leader: Peer,
}

/// Mathematical value of a [`BackupRange`].
pub struct BackupRangeView {
    pub start_key: Option<Seq<u8>>,
    pub end_key: Option<Seq<u8>>,
    pub region: RegionView,
    pub leader: Peer,
}

impl View for BackupRange {
    type V = BackupRangeView;

    open spec fn view(&self) -> BackupRangeView {
        BackupRangeView {
            start_key: self.start_key.deep_view(),
            end_key: self.end_key.deep_view(),
            region: self.region@,
            leader: self.leader,
        }
    }
}

impl DeepView for BackupRange {
    type V = BackupRangeView;

    open spec fn deep_view(&self) -> BackupRangeView {
        self.view()
    }
}

/// A backup range's bounds are unbounded or well-formed encoded keys.
pub open spec fn range_wf(b: BackupRangeView) -> bool {
    &&& b.start_key matches Some(s) ==> key_wf(s)
    &&& b.end_key matches Some(e) ==> key_wf(e)
}

/// The upper bound of the intersection of the user range and a region:
/// the tighter of the user's `end` and the region's own upper boundary.
pub open spec fn clip_end(r: RegionView, end: Option<Seq<u8>>) -> Option<Seq<u8>> {
    if r.end_key.len() == 0 {
        end
    } else if end is None {
        Some(r.end_key)
    } else if lex_lt(end.unwrap(), r.end_key) {
        end
    } else {
        Some(r.end_key)
    }
}

/// The lower bound of the intersection of the user range and a region:
/// the tighter of the user's `start` and the region's own lower boundary.
pub open spec fn clip_start(r: RegionView, start: Option<Seq<u8>>) -> Option<Seq<u8>> {
    if start is None {
        bound_of(r.start_key)
    } else if lex_lt(start.unwrap(), r.start_key) {
        bound_of(r.start_key)
    } else {
        start
    }
}

/// The backup range planned for one region.
pub open spec fn unit_of(
    ri: RegionInfoView,
    start: Option<Seq<u8>>,
    end: Option<Seq<u8>>,
    leader: Peer,
) -> BackupRangeView {
    BackupRangeView {
        start_key: clip_start(ri.region, start),
        end_key: clip_end(ri.region, end),
        region: ri.region,
        leader,
    }
}

/// A region the directory's seek skips: it starts before the seek key.
pub open spec fn before_seek(r: RegionView, start: Option<Seq<u8>>) -> bool {
    start matches Some(s) && lex_lt(r.start_key, s)
}

/// A region at which planning stops: it starts at or past the user's end.
pub open spec fn past_end(r: RegionView, end: Option<Seq<u8>>) -> bool {
    end matches Some(e) && lex_lt(e, r.start_key)
}

/// The planner's output over a directory listing: regions starting before
/// the seek key are not seen, planning stops at the first region starting
/// past the user's end, and every remaining locally-led region with a local
/// peer contributes one clipped unit, in listing order.
pub open spec fn plan(
    infos: Seq<RegionInfoView>,
    start: Option<Seq<u8>>,
    end: Option<Seq<u8>>,
    store_id: u64,
) -> Seq<BackupRangeView>
    decreases infos.len(),
{
    if infos.len() == 0 {
        Seq::empty()
    } else {
        let ri = infos.first();
        let rest = infos.drop_first();
        if before_seek(ri.region, start) {
            plan(rest, start, end, store_id)
        } else if past_end(ri.region, end) {
            Seq::empty()
        } else if ri.role == StateRole::Leader {
            match find_peer_spec(ri.region.peers, store_id) {
                Some(leader) => seq![unit_of(ri, start, end, leader)] + plan(
                    rest,
                    start,
                    end,
                    store_id,
                ),
                None => plan(rest, start, end, store_id),
            }
        } else {
            plan(rest, start, end, store_id)
        }
    }
}

/// Copies an optional key bound.
pub fn clone_bound(b: &Option<Key>) -> (r: Option<Key>)
    ensures
        r.deep_view() == b.deep_view(),
{
    match b {
        None => None,
        Some(k) => Some(k.clone()),
    }
}

/// The node-local backup endpoint: the identity of this store and the
/// directory's current listing of regions, ascending by start key.
pub struct Endpoint {
    pub store_id: u64,
    pub region_info: Vec<RegionInfo>,
}

/// The directory lists regions strictly ascending by encoded start key.
pub open spec fn directory_sorted(infos: Seq<RegionInfoView>) -> bool {
    forall|i: int, j: int|
        0 <= i < j < infos.len() ==> lex_lt(
            #[trigger] infos[i].region.start_key,
            #[trigger] infos[j].region.start_key,
        )
}

/// Every region in the listing has well-formed boundary keys.
pub open spec fn directory_wf(infos: Seq<RegionInfoView>) -> bool {
    forall|i: int| 0 <= i < infos.len() ==> region_wf(#[trigger] infos[i].region)
}

impl Endpoint {
    /// A new endpoint serving `store_id` from the given directory listing.
    pub fn new(store_id: u64, region_info: Vec<RegionInfo>) -> (e: Endpoint)
        ensures
            e.store_id == store_id,
            e.region_info == region_info,
    {
        Endpoint { store_id, region_info }
    }

    /// Plans the backup ranges for the user range `[start_key, end_key)`:
    /// every locally-led region intersecting the range, clipped to the
    /// intersection, in directory order.
    pub fn seek_backup_range(&self, start_key: Option<Key>, end_key: Option<Key>) -> (r: Vec<
        BackupRange,
    >)
        ensures
            r.deep_view() == plan(
                self.region_info.deep_view(),
                start_key.deep_view(),
                end_key.deep_view(),
                self.store_id,
            ),
    {
        let ghost infos = self.region_info.deep_view();
        let ghost startv = start_key.deep_view();
        let ghost endv = end_key.deep_view();
        let mut out: Vec<BackupRange> = Vec::new();
        let mut i: usize = 0;
        proof {
            assert(infos.skip(0) =~= infos);
            assert(out.deep_view() =~= Seq::<BackupRangeView>::empty());
        }
        loop
            invariant
                i <= self.region_info.len(),
                infos == self.region_info.deep_view(),
                startv == start_key.deep_view(),
                endv == end_key.deep_view(),
                infos.len() == self.region_info.len(),
                plan(infos, startv, endv, self.store_id) == out.deep_view() + plan(
                    infos.skip(i as int),
                    startv,
                    endv,
                    self.store_id,
                ),
            ensures
                plan(infos, startv, endv, self.store_id) == out.deep_view(),
            decreases self.region_info.len() - i,
        {
            if i >= self.region_info.len() {
                proof {
                    assert(infos.skip(i as int) =~= Seq::<RegionInfoView>::empty());
                    assert(out.deep_view() + Seq::<BackupRangeView>::empty() =~= out.deep_view());
                }
                break ;
            }
            let info = &self.region_info[i];
            let ghost tail = infos.skip(i as int);
            proof {
                assert(tail[0] == infos[i as int]);
                assert(tail.drop_first() =~= infos.skip(i as int + 1));
            }
            let seen = match &start_key {
                None => true,
                Some(s) => !key_lt(&info.region.start_key, s.as_encoded()),
            };
            if seen {
                let stop = match &end_key {
                    None => false,
                    Some(e) => key_lt(e.as_encoded(), &info.region.start_key),
                };
                if stop {
                    proof {
                        assert(plan(tail, startv, endv, self.store_id) =~= Seq::<
                            BackupRangeView,
                        >::empty());
                        assert(out.deep_view() + Seq::<BackupRangeView>::empty() =~= out.deep_view());
                    }
                    break ;
                }
                if matches!(info.role, StateRole::Leader) {
                    match find_peer(&info.region, self.store_id) {
                        Some(leader) => {
                            let (region_start, region_end) = key_from_region(&info.region);
                            let ekey = if info.region.end_key.len() == 0 {
                                clone_bound(&end_key)
                            } else {
                                match &end_key {
                                    None => region_end,
                                    Some(e) => {
                                        if key_lt(e.as_encoded(), &info.region.end_key) {
                                            clone_bound(&end_key)
                                        } else {
                                            region_end
                                        }
                                    },
                                }
                            };
                            let skey = match &start_key {
                                None => region_start,
                                Some(s) => {
                                    if key_lt(s.as_encoded(), &info.region.start_key) {
                                        region_start
                                    } else {
                                        clone_bound(&start_key)
                                    }
                                },
                            };
                            let brange = BackupRange {
                                start_key: skey,
                                end_key: ekey,
                                region: info.region.clone(),
                                leader,
                            };
                            let ghost out0 = out.deep_view();
                            proof {
                                assert(brange.deep_view() == unit_of(tail[0], startv, endv, leader));
                            }
                            out.push(brange);
                            proof {
                                assert(out.deep_view() =~= out0 + seq![
                                    unit_of(tail[0], startv, endv, leader),
                                ]);
                                assert(out.deep_view() + plan(
                                    infos.skip(i as int + 1),
                                    startv,
                                    endv,
                                    self.store_id,
                                ) =~= plan(infos, startv, endv, self.store_id));
                            }
                        },
                        None => {},
                    }
                }
            }
            i = i + 1;
        }
        out
    }
}

} // verus!
