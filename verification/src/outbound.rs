//! The daemon's outstanding requests to peers: what each one was about, the
//! checks that keep a request from being sent twice, and what a failed
//! request makes the daemon forget.
use vstd::prelude::*;
use crate::authorization::{find_member, member_position, MemberEntry};

verus! {

/// What an outstanding request to a peer was about, kept until its answer
/// or its failure arrives. Worlds, peers and hashes are in their text forms;
/// a generation is its epoch and fencing token.
#[derive(Debug)]
pub enum OutboundContext {
    Manifest { world: String, snapshot_number: u64 },
    Lease { world: String, peer: String, generation: (u64, u64) },
    RecoveryBallot { world: String, peer: String, ballot_hash: String },
    MembershipProposal { world: String, peer: String, proposal_hash: String },
    MembershipCommit { world: String, peer: String, sequence: u64 },
    Epoch { world: String, peer: String, generation: (u64, u64) },
    Status { world: String, peer: String },
    HostCapability { world: String, peer: String },
}

/// An outstanding request as plain values.
pub enum OutboundView {
    Manifest { world: Seq<char>, snapshot_number: u64 },
    Lease { world: Seq<char>, peer: Seq<char>, generation: (u64, u64) },
    RecoveryBallot { world: Seq<char>, peer: Seq<char>, ballot_hash: Seq<char> },
    MembershipProposal { world: Seq<char>, peer: Seq<char>, proposal_hash: Seq<char> },
    MembershipCommit { world: Seq<char>, peer: Seq<char>, sequence: u64 },
    Epoch { world: Seq<char>, peer: Seq<char>, generation: (u64, u64) },
    Status { world: Seq<char>, peer: Seq<char> },
    HostCapability { world: Seq<char>, peer: Seq<char> },
}

impl View for OutboundContext {
    type V = OutboundView;

    open spec fn view(&self) -> OutboundView {
        match self {
            OutboundContext::Manifest { world, snapshot_number } => OutboundView::Manifest {
                world: world@,
                snapshot_number: *snapshot_number,
            },
            OutboundContext::Lease { world, peer, generation } => OutboundView::Lease {
                world: world@,
                peer: peer@,
                generation: *generation,
            },
            OutboundContext::RecoveryBallot { world, peer, ballot_hash } => OutboundView::RecoveryBallot {
                world: world@,
                peer: peer@,
                ballot_hash: ballot_hash@,
            },
            OutboundContext::MembershipProposal { world, peer, proposal_hash } => OutboundView::MembershipProposal {
                world: world@,
                peer: peer@,
                proposal_hash: proposal_hash@,
            },
            OutboundContext::MembershipCommit { world, peer, sequence } => OutboundView::MembershipCommit {
                world: world@,
                peer: peer@,
                sequence: *sequence,
            },
            OutboundContext::Epoch { world, peer, generation } => OutboundView::Epoch {
                world: world@,
                peer: peer@,
                generation: *generation,
            },
            OutboundContext::Status { world, peer } => OutboundView::Status { world: world@, peer: peer@ },
            OutboundContext::HostCapability { world, peer } => OutboundView::HostCapability {
                world: world@,
                peer: peer@,
            },
        }
    }
}

/// Some outstanding request is `wanted`.
pub open spec fn pending(outbound: Seq<OutboundContext>, wanted: OutboundView) -> bool {
    exists|i: int| 0 <= i < outbound.len() && (#[trigger] outbound[i])@ == wanted
}

fn same_request(a: &OutboundContext, b: &OutboundContext) -> (r: bool)
    ensures
        r == (a@ == b@),
{
    match (a, b) {
        (
            OutboundContext::Manifest { world: w1, snapshot_number: n1 },
            OutboundContext::Manifest { world: w2, snapshot_number: n2 },
        ) => *w1 == *w2 && *n1 == *n2,
        (
            OutboundContext::Lease { world: w1, peer: p1, generation: g1 },
            OutboundContext::Lease { world: w2, peer: p2, generation: g2 },
        ) => *w1 == *w2 && *p1 == *p2 && g1.0 == g2.0 && g1.1 == g2.1,
        (
            OutboundContext::RecoveryBallot { world: w1, peer: p1, ballot_hash: h1 },
            OutboundContext::RecoveryBallot { world: w2, peer: p2, ballot_hash: h2 },
        ) => *w1 == *w2 && *p1 == *p2 && *h1 == *h2,
        (
            OutboundContext::MembershipProposal { world: w1, peer: p1, proposal_hash: h1 },
            OutboundContext::MembershipProposal { world: w2, peer: p2, proposal_hash: h2 },
        ) => *w1 == *w2 && *p1 == *p2 && *h1 == *h2,
        (
            OutboundContext::MembershipCommit { world: w1, peer: p1, sequence: s1 },
            OutboundContext::MembershipCommit { world: w2, peer: p2, sequence: s2 },
        ) => *w1 == *w2 && *p1 == *p2 && *s1 == *s2,
        (
            OutboundContext::Epoch { world: w1, peer: p1, generation: g1 },
            OutboundContext::Epoch { world: w2, peer: p2, generation: g2 },
        ) => *w1 == *w2 && *p1 == *p2 && g1.0 == g2.0 && g1.1 == g2.1,
        (OutboundContext::Status { world: w1, peer: p1 }, OutboundContext::Status { world: w2, peer: p2 }) => *w1
            == *w2 && *p1 == *p2,
        (
            OutboundContext::HostCapability { world: w1, peer: p1 },
            OutboundContext::HostCapability { world: w2, peer: p2 },
        ) => *w1 == *w2 && *p1 == *p2,
        _ => false,
    }
}

/// Whether a request like `wanted` is already outstanding.
pub fn request_pending(outbound: &[OutboundContext], wanted: &OutboundContext) -> (r: bool)
    ensures
        r == pending(outbound@, wanted@),
{
    let mut i: usize = 0;
    while i < outbound.len()
        invariant
            i <= outbound@.len(),
            forall|k: int| 0 <= k < i ==> (#[trigger] outbound@[k])@ != wanted@,
        decreases outbound@.len() - i,
    {
        if same_request(&outbound[i], wanted) {
            return true;
        }
        i = i + 1;
    }
    false
}

/// A lease request for `world` to `peer` at `generation` is outstanding.
pub fn lease_request_pending(outbound: &[OutboundContext], world: &String, peer: &String, generation: (u64, u64)) -> (r:
    bool)
    ensures
        r == pending(outbound@, OutboundView::Lease { world: world@, peer: peer@, generation }),
{
    let wanted = OutboundContext::Lease { world: world.clone(), peer: peer.clone(), generation };
    request_pending(outbound, &wanted)
}

/// A recovery ballot with `ballot_hash` for `world` to `peer` is outstanding.
pub fn recovery_ballot_request_pending(
    outbound: &[OutboundContext],
    world: &String,
    peer: &String,
    ballot_hash: &String,
) -> (r: bool)
    ensures
        r == pending(outbound@, OutboundView::RecoveryBallot { world: world@, peer: peer@, ballot_hash: ballot_hash@ }),
{
    let wanted = OutboundContext::RecoveryBallot { world: world.clone(), peer: peer.clone(), ballot_hash: ballot_hash.clone() };
    request_pending(outbound, &wanted)
}

/// An epoch request for `world` to `peer` at `generation` is outstanding.
pub fn epoch_request_pending(outbound: &[OutboundContext], world: &String, peer: &String, generation: (u64, u64)) -> (r:
    bool)
    ensures
        r == pending(outbound@, OutboundView::Epoch { world: world@, peer: peer@, generation }),
{
    let wanted = OutboundContext::Epoch { world: world.clone(), peer: peer.clone(), generation };
    request_pending(outbound, &wanted)
}

/// A status request for `world` to `peer` is outstanding.
pub fn status_request_pending(outbound: &[OutboundContext], world: &String, peer: &String) -> (r: bool)
    ensures
        r == pending(outbound@, OutboundView::Status { world: world@, peer: peer@ }),
{
    let wanted = OutboundContext::Status { world: world.clone(), peer: peer.clone() };
    request_pending(outbound, &wanted)
}

/// A host-capability request for `world` to `peer` is outstanding.
pub fn capability_request_pending(outbound: &[OutboundContext], world: &String, peer: &String) -> (r: bool)
    ensures
        r == pending(outbound@, OutboundView::HostCapability { world: world@, peer: peer@ }),
{
    let wanted = OutboundContext::HostCapability { world: world.clone(), peer: peer.clone() };
    request_pending(outbound, &wanted)
}

/// A membership proposal with `proposal_hash` for `world` to `peer` is
/// outstanding.
pub fn membership_proposal_request_pending(
    outbound: &[OutboundContext],
    world: &String,
    peer: &String,
    proposal_hash: &String,
) -> (r: bool)
    ensures
        r == pending(
            outbound@,
            OutboundView::MembershipProposal { world: world@, peer: peer@, proposal_hash: proposal_hash@ },
        ),
{
    let wanted = OutboundContext::MembershipProposal {
        world: world.clone(),
        peer: peer.clone(),
        proposal_hash: proposal_hash.clone(),
    };
    request_pending(outbound, &wanted)
}

/// The per-peer observations the daemon keeps for a world.
#[derive(Debug, Clone, Copy, PartialEq, Eq, Structural)]
pub enum PeerTable {
    LeaseAcks,
    RecoveryVotes,
    MembershipVotes,
    EpochAcks,
    PeerStatus,
    PeerCapability,
}

/// What a failed request leaves stale: the observation it was waiting to
/// renew, by table, world and peer; nothing for a manifest or a membership
/// commit.
pub open spec fn forgotten_spec(context: OutboundView) -> Option<(PeerTable, Seq<char>, Seq<char>)> {
    match context {
        OutboundView::Lease { world, peer, .. } => Some((PeerTable::LeaseAcks, world, peer)),
        OutboundView::RecoveryBallot { world, peer, .. } => Some((PeerTable::RecoveryVotes, world, peer)),
        OutboundView::MembershipProposal { world, peer, .. } => Some((PeerTable::MembershipVotes, world, peer)),
        OutboundView::Epoch { world, peer, .. } => Some((PeerTable::EpochAcks, world, peer)),
        OutboundView::Status { world, peer } => Some((PeerTable::PeerStatus, world, peer)),
        OutboundView::HostCapability { world, peer } => Some((PeerTable::PeerCapability, world, peer)),
        OutboundView::Manifest { .. } => None,
        OutboundView::MembershipCommit { .. } => None,
    }
}

/// The observation to drop when `context` fails.
pub fn forgotten_on_failure(context: &OutboundContext) -> (r: Option<(PeerTable, String, String)>)
    ensures
        match forgotten_spec(context@) {
            Some((table, world, peer)) => r matches Some((t, w, p)) && t == table && w@ == world && p@ == peer,
            None => r is None,
        },
{
    match context {
        OutboundContext::Lease { world, peer, .. } => Some((PeerTable::LeaseAcks, world.clone(), peer.clone())),
        OutboundContext::RecoveryBallot { world, peer, .. } => Some(
            (PeerTable::RecoveryVotes, world.clone(), peer.clone()),
        ),
        OutboundContext::MembershipProposal { world, peer, .. } => Some(
            (PeerTable::MembershipVotes, world.clone(), peer.clone()),
        ),
        OutboundContext::Epoch { world, peer, .. } => Some((PeerTable::EpochAcks, world.clone(), peer.clone())),
        OutboundContext::Status { world, peer } => Some((PeerTable::PeerStatus, world.clone(), peer.clone())),
        OutboundContext::HostCapability { world, peer } => Some(
            (PeerTable::PeerCapability, world.clone(), peer.clone()),
        ),
        OutboundContext::Manifest { .. } => None,
        OutboundContext::MembershipCommit { .. } => None,
    }
}

/// A connected peer: its transport identity and the application peer it
/// authenticated as.
#[derive(Debug, Clone, PartialEq, Eq)]
pub struct AuthenticatedPeer {
    pub transport_peer: String,
    pub peer_id: String,
}

/// A status request for `world` goes to a connected member other than this
/// device, unless one is already outstanding.
pub open spec fn wants_status(
    p: AuthenticatedPeer,
    members: Seq<MemberEntry>,
    local: Seq<char>,
    outbound: Seq<OutboundContext>,
    world: Seq<char>,
) -> bool {
    &&& p.peer_id@ != local
    &&& find_member(members, p.peer_id@, 0) is Some
    &&& !pending(outbound, OutboundView::Status { world, peer: p.peer_id@ })
}

/// A host-capability request for `world` goes to a connected, unbanned
/// member other than this device, unless one is already outstanding.
pub open spec fn wants_capability(
    p: AuthenticatedPeer,
    members: Seq<MemberEntry>,
    local: Seq<char>,
    outbound: Seq<OutboundContext>,
    world: Seq<char>,
) -> bool {
    &&& p.peer_id@ != local
    &&& find_member(members, p.peer_id@, 0) matches Some(i) && !members[i].banned
    &&& !pending(outbound, OutboundView::HostCapability { world, peer: p.peer_id@ })
}

fn copy_peer(p: &AuthenticatedPeer) -> (r: AuthenticatedPeer)
    ensures
        r == *p,
{
    AuthenticatedPeer { transport_peer: p.transport_peer.clone(), peer_id: p.peer_id.clone() }
}

/// The connected peers to ask for their status of `world`, in order.
pub fn status_request_targets(
    authenticated: &[AuthenticatedPeer],
    members: &[MemberEntry],
    local: &String,
    outbound: &[OutboundContext],
    world: &String,
) -> (r: Vec<AuthenticatedPeer>)
    ensures
        r@ == authenticated@.filter(|p: AuthenticatedPeer| wants_status(p, members@, local@, outbound@, world@)),
{
    let ghost pred = |p: AuthenticatedPeer| wants_status(p, members@, local@, outbound@, world@);
    let mut out: Vec<AuthenticatedPeer> = Vec::new();
    let mut i: usize = 0;
    while i < authenticated.len()
        invariant
            i <= authenticated@.len(),
            pred == (|p: AuthenticatedPeer| wants_status(p, members@, local@, outbound@, world@)),
            out@ == authenticated@.subrange(0, i as int).filter(pred),
        decreases authenticated@.len() - i,
    {
        proof {
            reveal(Seq::filter);
            assert(authenticated@.subrange(0, i + 1).drop_last() =~= authenticated@.subrange(0, i as int));
            assert(authenticated@.subrange(0, i + 1).last() == authenticated@[i as int]);
        }
        let p = &authenticated[i];
        let wanted = !(p.peer_id == *local) && member_position(members, &p.peer_id).is_some()
            && !status_request_pending(outbound, world, &p.peer_id);
        if wanted {
            out.push(copy_peer(p));
        }
        i = i + 1;
    }
    assert(authenticated@.subrange(0, authenticated@.len() as int) =~= authenticated@);
    out
}

/// The connected peers to ask for their host capability for `world`, in
/// order.
pub fn capability_request_targets(
    authenticated: &[AuthenticatedPeer],
    members: &[MemberEntry],
    local: &String,
    outbound: &[OutboundContext],
    world: &String,
) -> (r: Vec<AuthenticatedPeer>)
    ensures
        r@ == authenticated@.filter(|p: AuthenticatedPeer| wants_capability(p, members@, local@, outbound@, world@)),
{
    let ghost pred = |p: AuthenticatedPeer| wants_capability(p, members@, local@, outbound@, world@);
    let mut out: Vec<AuthenticatedPeer> = Vec::new();
    let mut i: usize = 0;
    while i < authenticated.len()
        invariant
            i <= authenticated@.len(),
            pred == (|p: AuthenticatedPeer| wants_capability(p, members@, local@, outbound@, world@)),
            out@ == authenticated@.subrange(0, i as int).filter(pred),
        decreases authenticated@.len() - i,
    {
        proof {
            reveal(Seq::filter);
            assert(authenticated@.subrange(0, i + 1).drop_last() =~= authenticated@.subrange(0, i as int));
            assert(authenticated@.subrange(0, i + 1).last() == authenticated@[i as int]);
        }
        let p = &authenticated[i];
        let wanted = if p.peer_id == *local {
            false
        } else {
            match member_position(members, &p.peer_id) {
                Some(k) => !members[k].banned && !capability_request_pending(outbound, world, &p.peer_id),
                None => false,
            }
        };
        if wanted {
            out.push(copy_peer(p));
        }
        i = i + 1;
    }
    assert(authenticated@.subrange(0, authenticated@.len() as int) =~= authenticated@);
    out
}

} // verus!
