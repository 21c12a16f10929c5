//! Regions (shards), peers and roles, as the local region directory
//! presents them.
//!
//! A region covers the half-open range `[start_key, end_key)` over encoded
//! keys; an empty boundary key denotes an unbounded side. The directory
//! reports every region together with the role the local store plays in it;
//! only regions led from this store are backed up here.

use vstd::prelude::*;

use crate::keys::Key;
use crate::keys::bound_of;
use crate::keys::clone_bytes;
use crate::keys::key_wf;
use crate::keys::lex_lt;

verus! {

/// One replica of a region, resident on one store (node).
#[derive(Clone, Copy, Debug, PartialEq, Eq, Structural)]
pub struct Peer {
    pub id: u64,
    pub store_id: u64,
}

impl DeepView for Peer {
    type V = Peer;

    open spec fn deep_view(&self) -> Peer {
        *self
    }
}

/// Role the local replica of a region currently plays.
#[derive(Clone, Copy, Debug, PartialEq, Eq, Structural)]
pub enum StateRole {
    Follower,
    Candidate,
    Leader,
    PreCandidate,
}

/// A contiguous unit of key-range ownership: `[start_key, end_key)` over
/// encoded keys, with an empty boundary denoting an unbounded side.
#[derive(Debug)]
pub struct Region {
    pub id: u64,
    /// Encoded lower boundary; empty means unbounded below.
    pub start_key: Vec<u8>,
    /// Encoded upper boundary; empty means unbounded above.
    pub end_key: Vec<u8>,
    /// Monotone version, advanced on membership or split/merge changes.
    pub epoch_version: u64,
    pub peers: Vec<Peer>,
}

/// Mathematical value of a [`Region`].
pub struct RegionView {
    pub id: u64,
    pub start_key: Seq<u8>,
    pub end_key: Seq<u8>,
    pub epoch_version: u64,
    pub peers: Seq<Peer>,
}

impl View for Region {
    type V = RegionView;

    open spec fn view(&self) -> RegionView {
        RegionView {
            id: self.id,
            start_key: self.start_key@,
            end_key: self.end_key@,
            epoch_version: self.epoch_version,
            peers: self.peers@,
        }
    }
}

impl DeepView for Region {
    type V = RegionView;

    open spec fn deep_view(&self) -> RegionView {
        self.view()
    }
}

/// A region's boundary keys are either empty or well-formed encodings, and
/// the range is not reversed.
pub open spec fn region_wf(r: RegionView) -> bool {
    &&& r.start_key.len() > 0 ==> key_wf(r.start_key)
    &&& r.end_key.len() > 0 ==> key_wf(r.end_key)
    &&& r.end_key.len() > 0 ==> lex_lt(r.start_key, r.end_key)
}

/// A region as the directory reports it: together with the local role.
#[derive(Debug)]
pub struct RegionInfo {
    pub region: Region,
    pub role: StateRole,
}

/// Mathematical value of a [`RegionInfo`].
pub struct RegionInfoView {
    pub region: RegionView,
    pub role: StateRole,
}

impl View for RegionInfo {
    type V = RegionInfoView;

    open spec fn view(&self) -> RegionInfoView {
        RegionInfoView { region: self.region@, role: self.role }
    }
}

impl DeepView for RegionInfo {
    type V = RegionInfoView;

    open spec fn deep_view(&self) -> RegionInfoView {
        self.view()
    }
}

impl Clone for Region {
    /// Clones a region, field for field.
    fn clone(&self) -> (r: Self)
        ensures
            r@ == self@,
    {
        let mut peers: Vec<Peer> = Vec::new();
        let mut i: usize = 0;
        while i < self.peers.len()
            invariant
                i <= self.peers.len(),
                peers@ == self.peers@.take(i as int),
            decreases self.peers.len() - i,
        {
            peers.push(self.peers[i]);
            proof {
                assert(peers@ =~= self.peers@.take(i as int + 1));
            }
            i = i + 1;
        }
        proof {
            assert(self.peers@.take(self.peers@.len() as int) =~= self.peers@);
        }
        Region {
            id: self.id,
            start_key: clone_bytes(&self.start_key),
            end_key: clone_bytes(&self.end_key),
            epoch_version: self.epoch_version,
            peers,
        }
    }
}

/// The peer of `peers` that resides on `store_id`, front to back.
pub open spec fn find_peer_spec(peers: Seq<Peer>, store_id: u64) -> Option<Peer>
    decreases peers.len(),
{
    if peers.len() == 0 {
        None
    } else if peers.first().store_id == store_id {
        Some(peers.first())
    } else {
        find_peer_spec(peers.drop_first(), store_id)
    }
}

/// Finds the replica of `region` that resides on store `store_id`.
pub fn find_peer(region: &Region, store_id: u64) -> (r: Option<Peer>)
    ensures
        r == find_peer_spec(region@.peers, store_id),
{
    let peers = &region.peers;
    let mut i: usize = 0;
    proof {
        assert(peers@.skip(0) =~= peers@);
    }
    loop
        invariant
            i <= peers.len(),
            find_peer_spec(region@.peers, store_id) == find_peer_spec(
                peers@.skip(i as int),
                store_id,
            ),
        decreases peers.len() - i,
    {
        if i == peers.len() {
            return None;
        }
        proof {
            assert(peers@.skip(i as int)[0] == peers@[i as int]);
        }
        if peers[i].store_id == store_id {
            return Some(peers[i]);
        }
        proof {
            assert(peers@.skip(i as int).drop_first() =~= peers@.skip(i as int + 1));
        }
        i = i + 1;
    }
}

/// The bounds a region contributes on its own: each boundary key, with the
/// empty boundary turned into the unbounded side.
pub fn key_from_region(region: &Region) -> (r: (Option<Key>, Option<Key>))
    ensures
        r.0.deep_view() == bound_of(region@.start_key),
        r.1.deep_view() == bound_of(region@.end_key),
{
    let start = if region.start_key.len() == 0 {
        None
    } else {
        Some(Key::from_encoded_slice(&region.start_key))
    };
    let end = if region.end_key.len() == 0 {
        None
    } else {
        Some(Key::from_encoded_slice(&region.end_key))
    };
    (start, end)
}

} // verus!
