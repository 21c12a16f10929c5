//! The laws the endpoint obeys, stated over the planner's and the
//! dispatcher's specifications and proved once for all inputs.

use vstd::prelude::*;
use vstd::multiset::group_multiset_axioms;
use vstd::seq_lib::group_to_multiset_ensures;

use crate::dispatch::ErrorKind;
use crate::dispatch::UnitResultView;
use crate::dispatch::raw_bound;
use crate::dispatch::response_of;
use crate::dispatch::responses_of;
use crate::endpoint::BackupRangeView;
use crate::endpoint::before_seek;
use crate::endpoint::clip_end;
use crate::endpoint::clip_start;
use crate::endpoint::directory_sorted;
use crate::endpoint::directory_wf;
use crate::endpoint::past_end;
use crate::endpoint::plan;
use crate::endpoint::range_wf;
use crate::endpoint::unit_of;
use crate::keys::bound_of;
use crate::keys::bound_of_raw;
use crate::keys::key_wf;
use crate::keys::lemma_encode_roundtrip;
use crate::keys::lemma_lex_trichotomy;
use crate::keys::lex_le;
use crate::keys::lex_lt;
use crate::region::RegionInfoView;
use crate::region::RegionView;
use crate::region::StateRole;
use crate::region::find_peer_spec;
use crate::region::region_wf;

verus! {

/// Lexicographic order is transitive.
pub proof fn lemma_lex_trans(a: Seq<u8>, b: Seq<u8>, c: Seq<u8>)
    requires
        lex_lt(a, b),
        lex_lt(b, c),
    ensures
        lex_lt(a, c),
    decreases a.len(),
{
    if a.len() != 0 && b.len() != 0 && c.len() != 0 {
        if a[0] == b[0] && b[0] == c[0] {
            lemma_lex_trans(a.drop_first(), b.drop_first(), c.drop_first());
        }
    }
}

/// A region contributes a unit only where the directory reports this store
/// as its leader and lists a local peer: every planned unit originates from
/// such a listing entry, clipped by the user range.
pub proof fn lemma_plan_sources(
    infos: Seq<RegionInfoView>,
    start: Option<Seq<u8>>,
    end: Option<Seq<u8>>,
    store_id: u64,
)
    ensures
        forall|i: int|
            0 <= i < plan(infos, start, end, store_id).len() ==> exists|k: int|
                0 <= k < infos.len() && infos[k].role == StateRole::Leader && find_peer_spec(
                    infos[k].region.peers,
                    store_id,
                ) is Some && #[trigger] plan(infos, start, end, store_id)[i] == unit_of(
                    infos[k],
                    start,
                    end,
                    find_peer_spec(infos[k].region.peers, store_id).unwrap(),
                ),
    decreases infos.len(),
{
    let p = plan(infos, start, end, store_id);
    if infos.len() == 0 {
    } else if !before_seek(infos.first().region, start) && past_end(infos.first().region, end) {
    } else {
        let rest = infos.drop_first();
        lemma_plan_sources(rest, start, end, store_id);
        let prest = plan(rest, start, end, store_id);
        assert forall|i: int| 0 <= i < p.len() implies exists|k: int|
            0 <= k < infos.len() && infos[k].role == StateRole::Leader && find_peer_spec(
                infos[k].region.peers,
                store_id,
            ) is Some && #[trigger] p[i] == unit_of(
                infos[k],
                start,
                end,
                find_peer_spec(infos[k].region.peers, store_id).unwrap(),
            ) by {
            let emitted = !before_seek(infos.first().region, start) && infos.first().role
                == StateRole::Leader && find_peer_spec(infos.first().region.peers, store_id) is Some;
            if emitted && i == 0 {
                assert(infos[0] == infos.first());
                assert(p[0] == unit_of(
                    infos[0],
                    start,
                    end,
                    find_peer_spec(infos[0].region.peers, store_id).unwrap(),
                ));
            } else {
                let i0: int = if emitted {
                    i - 1
                } else {
                    i
                };
                assert(p[i] == prest[i0]);
                let k0 = choose|k: int|
                    0 <= k < rest.len() && rest[k].role == StateRole::Leader && find_peer_spec(
                        rest[k].region.peers,
                        store_id,
                    ) is Some && #[trigger] prest[i0] == unit_of(
                        rest[k],
                        start,
                        end,
                        find_peer_spec(rest[k].region.peers, store_id).unwrap(),
                    );
                assert(rest[k0] == infos[k0 + 1]);
            }
        }
    }
}

/// The tail of a sorted, well-formed listing is sorted and well-formed.
proof fn lemma_directory_tail(infos: Seq<RegionInfoView>)
    requires
        infos.len() > 0,
    ensures
        directory_sorted(infos) ==> directory_sorted(infos.drop_first()),
        directory_wf(infos) ==> directory_wf(infos.drop_first()),
{
    let rest = infos.drop_first();
    if directory_sorted(infos) {
        assert forall|i: int, j: int| 0 <= i < j < rest.len() implies lex_lt(
            #[trigger] rest[i].region.start_key,
            #[trigger] rest[j].region.start_key,
        ) by {
            assert(rest[i] == infos[i + 1]);
            assert(rest[j] == infos[j + 1]);
        }
    }
    if directory_wf(infos) {
        assert forall|i: int| 0 <= i < rest.len() implies region_wf(#[trigger] rest[i].region) by {
            assert(rest[i] == infos[i + 1]);
        }
    }
}

/// Units leave the planner strictly ascending by region start key; in
/// particular no two units stand for the same region.
pub proof fn lemma_plan_ascending(
    infos: Seq<RegionInfoView>,
    start: Option<Seq<u8>>,
    end: Option<Seq<u8>>,
    store_id: u64,
)
    requires
        directory_sorted(infos),
    ensures
        forall|i: int, j: int|
            0 <= i < j < plan(infos, start, end, store_id).len() ==> lex_lt(
                #[trigger] plan(infos, start, end, store_id)[i].region.start_key,
                #[trigger] plan(infos, start, end, store_id)[j].region.start_key,
            ),
    decreases infos.len(),
{
    let p = plan(infos, start, end, store_id);
    if infos.len() > 0 {
        let rest = infos.drop_first();
        lemma_directory_tail(infos);
        lemma_plan_ascending(rest, start, end, store_id);
        lemma_plan_sources(rest, start, end, store_id);
        let prest = plan(rest, start, end, store_id);
        let emitted = !before_seek(infos.first().region, start) && !past_end(
            infos.first().region,
            end,
        ) && infos.first().role == StateRole::Leader && find_peer_spec(
            infos.first().region.peers,
            store_id,
        ) is Some;
        if emitted {
            assert forall|m: int| 0 <= m < prest.len() implies lex_lt(
                infos.first().region.start_key,
                prest[m].region.start_key,
            ) by {
                let k0 = choose|k: int|
                    0 <= k < rest.len() && rest[k].role == StateRole::Leader && find_peer_spec(
                        rest[k].region.peers,
                        store_id,
                    ) is Some && #[trigger] prest[m] == unit_of(
                        rest[k],
                        start,
                        end,
                        find_peer_spec(rest[k].region.peers, store_id).unwrap(),
                    );
                assert(rest[k0] == infos[k0 + 1]);
                assert(lex_lt(infos[0].region.start_key, infos[k0 + 1].region.start_key));
            }
            assert forall|i: int, j: int| 0 <= i < j < p.len() implies lex_lt(
                #[trigger] p[i].region.start_key,
                #[trigger] p[j].region.start_key,
            ) by {
                if i > 0 {
                    assert(p[i] == prest[i - 1]);
                    assert(p[j] == prest[j - 1]);
                } else {
                    assert(p[j] == prest[j - 1]);
                }
            }
        }
    }
}

/// Non-leader exclusion: a region whose local role is not leader
/// contributes no unit, hence no response.
pub proof fn lemma_non_leader_excluded(
    infos: Seq<RegionInfoView>,
    start: Option<Seq<u8>>,
    end: Option<Seq<u8>>,
    store_id: u64,
    k: int,
)
    requires
        directory_sorted(infos),
        0 <= k < infos.len(),
        infos[k].role != StateRole::Leader,
    ensures
        forall|i: int|
            0 <= i < plan(infos, start, end, store_id).len() ==> #[trigger] plan(
                infos,
                start,
                end,
                store_id,
            )[i].region.start_key != infos[k].region.start_key,
    decreases infos.len(),
{
    let p = plan(infos, start, end, store_id);
    lemma_plan_sources(infos, start, end, store_id);
    assert forall|i: int| 0 <= i < p.len() implies #[trigger] p[i].region.start_key
        != infos[k].region.start_key by {
        let k0 = choose|k0: int|
            0 <= k0 < infos.len() && infos[k0].role == StateRole::Leader && find_peer_spec(
                infos[k0].region.peers,
                store_id,
            ) is Some && #[trigger] p[i] == unit_of(
                infos[k0],
                start,
                end,
                find_peer_spec(infos[k0].region.peers, store_id).unwrap(),
            );
        if p[i].region.start_key == infos[k].region.start_key {
            if k0 < k {
                assert(lex_lt(infos[k0].region.start_key, infos[k].region.start_key));
                lemma_lex_trichotomy(infos[k0].region.start_key, infos[k].region.start_key);
            } else if k < k0 {
                assert(lex_lt(infos[k].region.start_key, infos[k0].region.start_key));
                lemma_lex_trichotomy(infos[k].region.start_key, infos[k0].region.start_key);
            }
        }
    }
}

/// A region fully contained in the user range `[start, end)`.
pub open spec fn contained(r: RegionView, start: Option<Seq<u8>>, end: Option<Seq<u8>>) -> bool {
    &&& (start matches Some(s) ==> lex_le(s, r.start_key))
    &&& (match end {
        None => true,
        Some(e) => r.end_key.len() > 0 && lex_le(r.end_key, e),
    })
}

/// Coverage: a locally-led region fully contained in the user range
/// contributes exactly one unit, and that unit's bounds are the region's
/// own bounds, so its response covers exactly the region's range.
pub proof fn lemma_coverage(
    infos: Seq<RegionInfoView>,
    start: Option<Seq<u8>>,
    end: Option<Seq<u8>>,
    store_id: u64,
    k: int,
)
    requires
        directory_sorted(infos),
        directory_wf(infos),
        0 <= k < infos.len(),
        infos[k].role == StateRole::Leader,
        find_peer_spec(infos[k].region.peers, store_id) is Some,
        contained(infos[k].region, start, end),
        start matches Some(s) ==> s.len() > 0,
    ensures
        clip_start(infos[k].region, start) == bound_of(infos[k].region.start_key),
        clip_end(infos[k].region, end) == bound_of(infos[k].region.end_key),
        plan(infos, start, end, store_id).contains(
            unit_of(infos[k], start, end, find_peer_spec(infos[k].region.peers, store_id).unwrap()),
        ),
        forall|i: int, j: int|
            0 <= i < plan(infos, start, end, store_id).len() && 0 <= j < plan(
                infos,
                start,
                end,
                store_id,
            ).len() && #[trigger] plan(infos, start, end, store_id)[i] == #[trigger] plan(
                infos,
                start,
                end,
                store_id,
            )[j] ==> i == j,
    decreases infos.len(),
{
    let x = infos[k].region;
    let leader = find_peer_spec(x.peers, store_id).unwrap();
    let u = unit_of(infos[k], start, end, leader);
    let p = plan(infos, start, end, store_id);

    // The clipped bounds coincide with the region's own bounds.
    match start {
        Some(s) => lemma_lex_trichotomy(s, x.start_key),
        None => (),
    }
    match end {
        Some(e) => lemma_lex_trichotomy(e, x.end_key),
        None => (),
    }

    // The region is not past the user's end.
    assert(!past_end(x, end)) by {
        match end {
            Some(e) => {
                assert(x.end_key.len() > 0 && lex_le(x.end_key, e));
                assert(region_wf(x));
                assert(lex_lt(x.start_key, x.end_key));
                if lex_lt(x.end_key, e) {
                    lemma_lex_trans(x.start_key, x.end_key, e);
                }
                lemma_lex_trichotomy(e, x.start_key);
            },
            None => (),
        }
    }
    // The region is seen by the directory seek.
    assert(!before_seek(x, start)) by {
        match start {
            Some(s) => lemma_lex_trichotomy(s, x.start_key),
            None => (),
        }
    }

    if k == 0 {
        assert(p[0] == u);
        assert(p.contains(u));
    } else {
        let rest = infos.drop_first();
        lemma_directory_tail(infos);
        assert(rest[k - 1] == infos[k]);
        // Planning does not stop at the head: the head starts before the
        // contained region, which itself starts before the user's end.
        assert(!past_end(infos.first().region, end)) by {
            match end {
                Some(e) => {
                    assert(lex_lt(infos[0].region.start_key, infos[k].region.start_key));
                    if lex_lt(e, infos[0].region.start_key) {
                        lemma_lex_trans(e, infos[0].region.start_key, x.start_key);
                        assert(lex_lt(e, x.start_key));
                        assert(!past_end(x, end));
                    }
                },
                None => (),
            }
        }
        lemma_coverage(rest, start, end, store_id, k - 1);
        let prest = plan(rest, start, end, store_id);
        let i0 = choose|i: int| 0 <= i < prest.len() && prest[i] == u;
        if p == prest {
            assert(p.contains(u));
        } else {
            assert(p[i0 + 1] == u);
            assert(p.contains(u));
        }
    }

    // Uniqueness: units are strictly ascending, so equal units coincide.
    lemma_plan_ascending(infos, start, end, store_id);
    assert forall|i: int, j: int|
        0 <= i < p.len() && 0 <= j < p.len() && #[trigger] p[i] == #[trigger] p[j] implies i
        == j by {
        if i < j {
            lemma_lex_trichotomy(p[i].region.start_key, p[j].region.start_key);
        } else if j < i {
            lemma_lex_trichotomy(p[j].region.start_key, p[i].region.start_key);
        }
    }
}

/// The lower bound of two lower bounds, `None` standing for minus infinity.
pub open spec fn lower_max(a: Option<Seq<u8>>, b: Option<Seq<u8>>) -> Option<Seq<u8>> {
    match (a, b) {
        (None, _) => b,
        (Some(x), None) => Some(x),
        (Some(x), Some(y)) => if lex_lt(x, y) {
            Some(y)
        } else {
            Some(x)
        },
    }
}

/// The upper bound of two upper bounds, `None` standing for plus infinity.
pub open spec fn upper_min(a: Option<Seq<u8>>, b: Option<Seq<u8>>) -> Option<Seq<u8>> {
    match (a, b) {
        (None, _) => b,
        (Some(x), None) => Some(x),
        (Some(x), Some(y)) => if lex_lt(x, y) {
            Some(x)
        } else {
            Some(y)
        },
    }
}

/// Clipping: a unit's range is the intersection of the user range and the
/// region's range — the tighter lower bound and the tighter upper bound,
/// with `None` denoting the open side.
pub proof fn lemma_clipping(r: RegionView, start: Option<Seq<u8>>, end: Option<Seq<u8>>)
    ensures
        clip_start(r, start) == lower_max(start, bound_of(r.start_key)),
        clip_end(r, end) == upper_min(end, bound_of(r.end_key)),
{
}

/// Well-formedness: over a well-formed directory and well-formed user
/// bounds, every planned unit has well-formed bounds.
pub proof fn lemma_plan_wf(
    infos: Seq<RegionInfoView>,
    start: Option<Seq<u8>>,
    end: Option<Seq<u8>>,
    store_id: u64,
)
    requires
        directory_wf(infos),
        start matches Some(s) ==> key_wf(s),
        end matches Some(e) ==> key_wf(e),
    ensures
        forall|i: int|
            0 <= i < plan(infos, start, end, store_id).len() ==> range_wf(
                #[trigger] plan(infos, start, end, store_id)[i],
            ),
{
    let p = plan(infos, start, end, store_id);
    lemma_plan_sources(infos, start, end, store_id);
    assert forall|i: int| 0 <= i < p.len() implies range_wf(#[trigger] p[i]) by {
        let k0 = choose|k: int|
            0 <= k < infos.len() && infos[k].role == StateRole::Leader && find_peer_spec(
                infos[k].region.peers,
                store_id,
            ) is Some && #[trigger] p[i] == unit_of(
                infos[k],
                start,
                end,
                find_peer_spec(infos[k].region.peers, store_id).unwrap(),
            );
        assert(region_wf(infos[k0].region));
    }
}

/// Mapping a function over a sequence depends, up to multiset equality,
/// only on the sequence's multiset: permuted inputs give permuted outputs.
pub proof fn lemma_map_values_multiset<A, B>(s1: Seq<A>, s2: Seq<A>, f: spec_fn(A) -> B)
    requires
        s1.to_multiset() == s2.to_multiset(),
    ensures
        s1.map_values(f).to_multiset() == s2.map_values(f).to_multiset(),
    decreases s1.len(),
{
    broadcast use group_to_multiset_ensures;
    broadcast use group_multiset_axioms;

    if s1.len() == 0 {
        assert(s1.to_multiset().len() == s1.len());
        assert(s2.to_multiset().len() == s2.len());
        assert(s2.len() == 0);
        assert(s1.map_values(f) =~= Seq::<B>::empty());
        assert(s2.map_values(f) =~= Seq::<B>::empty());
    } else {
        let n = s1.len() - 1;
        let a = s1[n as int];
        assert(s1.contains(a));
        assert(s2.to_multiset().count(a) > 0);
        assert(s2.contains(a));
        let j = choose|j: int| 0 <= j < s2.len() && s2[j] == a;
        let t1 = s1.remove(n as int);
        let t2 = s2.remove(j);
        assert(t1.to_multiset() == s1.to_multiset().remove(a));
        assert(t2.to_multiset() == s2.to_multiset().remove(a));
        lemma_map_values_multiset(t1, t2, f);
        let m1 = s1.map_values(f);
        let m2 = s2.map_values(f);
        assert(t1.map_values(f) =~= m1.remove(n as int));
        assert(t2.map_values(f) =~= m2.remove(j));
        assert(m1[n as int] == f(a));
        assert(m2[j] == f(a));
        assert(m1.remove(n as int).to_multiset() == m1.to_multiset().remove(f(a)));
        assert(m2.remove(j).to_multiset() == m2.to_multiset().remove(f(a)));
        assert(m1.contains(f(a)));
        assert(m2.contains(f(a)));
        assert forall|x: B| m1.to_multiset().count(x) == m2.to_multiset().count(x) by {
            assert(m1.to_multiset().remove(f(a)).count(x) == m2.to_multiset().remove(f(a)).count(
                x,
            ));
        }
        assert(m1.to_multiset() =~= m2.to_multiset());
    }
}

/// The raw range a unit answers with.
pub open spec fn range_of(b: BackupRangeView) -> (Seq<u8>, Seq<u8>) {
    (raw_bound(b.start_key), raw_bound(b.end_key))
}

/// The raw ranges of the responses to a list of unit results, in arrival
/// order.
pub open spec fn answered_ranges(results: Seq<UnitResultView>, start_ts: u64, end_ts: u64) -> Seq<
    (Seq<u8>, Seq<u8>),
> {
    results.map_values(
        |u: UnitResultView|
            {
                let r = response_of(u, start_ts, end_ts);
                (r.start_key, r.end_key)
            },
    )
}

/// Ordering freedom: whatever order the workers finish in, as long as the
/// collected results cover the planner's units (one result per unit, in any
/// order), the multiset of answered raw ranges equals the multiset of the
/// planner's ranges. The response stream is independent of scheduling.
pub proof fn lemma_scheduling_freedom(
    results: Seq<UnitResultView>,
    units: Seq<BackupRangeView>,
    start_ts: u64,
    end_ts: u64,
)
    requires
        results.map_values(|u: UnitResultView| u.brange).to_multiset() == units.to_multiset(),
    ensures
        answered_ranges(results, start_ts, end_ts).to_multiset() == units.map_values(
            |b: BackupRangeView| range_of(b),
        ).to_multiset(),
{
    let branges = results.map_values(|u: UnitResultView| u.brange);
    assert(answered_ranges(results, start_ts, end_ts) =~= branges.map_values(
        |b: BackupRangeView| range_of(b),
    ));
    lemma_map_values_multiset(branges, units, |b: BackupRangeView| range_of(b));
}

/// Stamping: every file of a successful response carries the response's
/// own raw range and the task's timestamps.
pub proof fn lemma_stamping(u: UnitResultView, start_ts: u64, end_ts: u64)
    ensures
        ({
            let r = response_of(u, start_ts, end_ts);
            forall|i: int|
                0 <= i < r.files.len() ==> (#[trigger] r.files[i]).start_key == r.start_key
                    && r.files[i].end_key == r.end_key && r.files[i].start_version == start_ts
                    && r.files[i].end_version == end_ts
        }),
{
}

/// Error isolation: where two runs differ only in one unit failing, the
/// failing unit answers an error response over its own range, and every
/// other unit's response is unchanged.
pub proof fn lemma_error_isolation(
    results1: Seq<UnitResultView>,
    results2: Seq<UnitResultView>,
    k: int,
    kind: ErrorKind,
    start_ts: u64,
    end_ts: u64,
)
    requires
        results1.len() == results2.len(),
        0 <= k < results1.len(),
        forall|i: int| 0 <= i < results1.len() && i != k ==> results1[i] == results2[i],
        results2[k].brange == results1[k].brange,
        results2[k].result == Err::<(Seq<crate::dispatch::FileView>, crate::dispatch::Statistics),
            ErrorKind,
        >(kind),
    ensures
        ({
            let r1 = responses_of(results1, start_ts, end_ts);
            let r2 = responses_of(results2, start_ts, end_ts);
            &&& r1.len() == r2.len()
            &&& forall|i: int| 0 <= i < r1.len() && i != k ==> r1[i] == r2[i]
            &&& r2[k] == Some(
                crate::dispatch::BackupResponseView {
                    start_key: raw_bound(results1[k].brange.start_key),
                    end_key: raw_bound(results1[k].brange.end_key),
                    files: Seq::empty(),
                    error: Some(kind),
                },
            )
        }),
{
    let r1 = responses_of(results1, start_ts, end_ts);
    let r2 = responses_of(results2, start_ts, end_ts);
    assert forall|i: int| 0 <= i < r1.len() && i != k implies r1[i] == r2[i] by {
        if i < results1.len() {
            assert(results1[i] == results2[i]);
        }
    }
}

/// Reflexive lexicographic order is transitive.
pub proof fn lemma_lex_le_trans(a: Seq<u8>, b: Seq<u8>, c: Seq<u8>)
    requires
        lex_le(a, b),
        lex_le(b, c),
    ensures
        lex_le(a, c),
{
    if lex_lt(a, b) && lex_lt(b, c) {
        lemma_lex_trans(a, b, c);
    }
}

/// Regions in the listing are pairwise disjoint: each earlier region ends
/// at or before a later one begins.
pub open spec fn directory_disjoint(infos: Seq<RegionInfoView>) -> bool {
    forall|i: int, j: int|
        0 <= i < j < infos.len() ==> (#[trigger] infos[i].region).end_key.len() > 0 && lex_le(
            infos[i].region.end_key,
            (#[trigger] infos[j].region).start_key,
        )
}

/// A planned range spans a non-degenerate interval.
pub open spec fn range_nonempty(b: BackupRangeView) -> bool {
    match (b.start_key, b.end_key) {
        (_, None) => true,
        (None, Some(e)) => e.len() > 0,
        (Some(s), Some(e)) => lex_lt(s, e),
    }
}

/// Over a disjoint directory, distinct units never answer the same
/// non-degenerate raw range: together with coverage, a contained region's
/// range identifies its response among all responses.
pub proof fn lemma_covering_range_unique(
    infos: Seq<RegionInfoView>,
    start: Option<Seq<u8>>,
    end: Option<Seq<u8>>,
    store_id: u64,
    i: int,
    j: int,
)
    requires
        directory_sorted(infos),
        directory_disjoint(infos),
        0 <= i < plan(infos, start, end, store_id).len(),
        0 <= j < plan(infos, start, end, store_id).len(),
        plan(infos, start, end, store_id)[i].start_key == plan(
            infos,
            start,
            end,
            store_id,
        )[j].start_key,
        plan(infos, start, end, store_id)[i].end_key == plan(infos, start, end, store_id)[j].end_key,
        range_nonempty(plan(infos, start, end, store_id)[i]),
    ensures
        i == j,
{
    if i != j {
        let lo: int = if i < j {
            i
        } else {
            j
        };
        let hi: int = if i < j {
            j
        } else {
            i
        };
        lemma_distinct_units_distinct_ranges(infos, start, end, store_id, lo, hi);
    }
}

/// Over a sorted, disjoint directory, of two distinct planned units the
/// shared range bounds force both ranges to be degenerate.
proof fn lemma_distinct_units_distinct_ranges(
    infos: Seq<RegionInfoView>,
    start: Option<Seq<u8>>,
    end: Option<Seq<u8>>,
    store_id: u64,
    i: int,
    j: int,
)
    requires
        directory_sorted(infos),
        directory_disjoint(infos),
        0 <= i < j < plan(infos, start, end, store_id).len(),
        plan(infos, start, end, store_id)[i].start_key == plan(
            infos,
            start,
            end,
            store_id,
        )[j].start_key,
        plan(infos, start, end, store_id)[i].end_key == plan(infos, start, end, store_id)[j].end_key,
    ensures
        !range_nonempty(plan(infos, start, end, store_id)[i]),
{
    let p = plan(infos, start, end, store_id);
    lemma_plan_sources(infos, start, end, store_id);
    lemma_plan_ascending(infos, start, end, store_id);
    let ki = choose|k: int|
        0 <= k < infos.len() && infos[k].role == StateRole::Leader && find_peer_spec(
            infos[k].region.peers,
            store_id,
        ) is Some && #[trigger] p[i] == unit_of(
            infos[k],
            start,
            end,
            find_peer_spec(infos[k].region.peers, store_id).unwrap(),
        );
    let kj = choose|k: int|
        0 <= k < infos.len() && infos[k].role == StateRole::Leader && find_peer_spec(
            infos[k].region.peers,
            store_id,
        ) is Some && #[trigger] p[j] == unit_of(
            infos[k],
            start,
            end,
            find_peer_spec(infos[k].region.peers, store_id).unwrap(),
        );
    let ri = infos[ki].region;
    let rj = infos[kj].region;
    // The ascending region start keys place `ki` strictly before `kj`.
    assert(lex_lt(p[i].region.start_key, p[j].region.start_key));
    assert(p[i].region == ri && p[j].region == rj);
    assert(lex_lt(ri.start_key, rj.start_key));
    if kj < ki {
        assert(lex_lt(rj.start_key, ri.start_key));
        lemma_lex_trichotomy(ri.start_key, rj.start_key);
    }
    if ki == kj {
        lemma_lex_trichotomy(ri.start_key, rj.start_key);
    }
    assert(ki < kj);
    assert(ri.end_key.len() > 0 && lex_le(ri.end_key, rj.start_key));
    // The later region has a bounded start, so the shared lower bound sits
    // at or above it.
    assert(rj.start_key.len() > 0) by {
        if rj.start_key.len() == 0 {
            assert(!lex_lt(ri.start_key, rj.start_key));
        }
    }
    lemma_clipping(ri, start, end);
    lemma_clipping(rj, start, end);
    // The shared upper bound sits at or below the earlier region's end.
    let x = p[i].end_key.unwrap();
    assert(p[i].end_key is Some && lex_le(x, ri.end_key)) by {
        match end {
            Some(e) => {
                if lex_lt(e, ri.end_key) {
                } else {
                }
            },
            None => (),
        }
    }
    let y = p[j].start_key.unwrap();
    assert(p[j].start_key is Some && lex_le(rj.start_key, y)) by {
        match start {
            Some(s) => {
                if lex_lt(s, rj.start_key) {
                } else {
                    lemma_lex_trichotomy(s, rj.start_key);
                }
            },
            None => (),
        }
    }
    lemma_lex_le_trans(x, ri.end_key, rj.start_key);
    lemma_lex_le_trans(x, rj.start_key, y);
    // An upper bound at or below the lower bound leaves no interval.
    lemma_lex_trichotomy(x, y);
    assert(!lex_lt(y, x));
    assert(!range_nonempty(p[i]));
}

/// Round trip of user bounds: the raw range a response reports is exactly
/// the raw range the task asked for — empty raw bytes go to the unbounded
/// side and come back empty, anything else encodes and decodes to itself.
pub proof fn lemma_user_bound_roundtrip(raw: Seq<u8>)
    ensures
        raw_bound(bound_of_raw(raw)) == raw,
{
    if raw.len() > 0 {
        lemma_encode_roundtrip(raw);
    }
}

} // verus!
