use swarm_cli::outbound::{
    capability_request_pending, epoch_request_pending, forgotten_on_failure, lease_request_pending,
    membership_proposal_request_pending, recovery_ballot_request_pending, request_pending, status_request_pending,
    OutboundContext, PeerTable, capability_request_targets, status_request_targets, AuthenticatedPeer,
};
use swarm_cli::authorization::MemberEntry;

fn s(text: &str) -> String {
    text.to_string()
}

fn outstanding() -> Vec<OutboundContext> {
    vec![
        OutboundContext::Manifest { world: s("w1"), snapshot_number: 7 },
        OutboundContext::Lease { world: s("w1"), peer: s("p1"), generation: (3, 9) },
        OutboundContext::RecoveryBallot { world: s("w1"), peer: s("p2"), ballot_hash: s("b1") },
        OutboundContext::MembershipProposal { world: s("w2"), peer: s("p1"), proposal_hash: s("h1") },
        OutboundContext::Epoch { world: s("w2"), peer: s("p3"), generation: (4, 10) },
        OutboundContext::Status { world: s("w1"), peer: s("p3") },
        OutboundContext::HostCapability { world: s("w2"), peer: s("p2") },
    ]
}

#[test]
fn only_an_identical_outstanding_request_counts_as_pending() {
    let out = outstanding();
    assert!(lease_request_pending(&out, &s("w1"), &s("p1"), (3, 9)));
    assert!(!lease_request_pending(&out, &s("w1"), &s("p1"), (3, 10)));
    assert!(!lease_request_pending(&out, &s("w2"), &s("p1"), (3, 9)));
    assert!(recovery_ballot_request_pending(&out, &s("w1"), &s("p2"), &s("b1")));
    assert!(!recovery_ballot_request_pending(&out, &s("w1"), &s("p2"), &s("b2")));
    assert!(epoch_request_pending(&out, &s("w2"), &s("p3"), (4, 10)));
    assert!(!epoch_request_pending(&out, &s("w2"), &s("p1"), (4, 10)));
    assert!(status_request_pending(&out, &s("w1"), &s("p3")));
    assert!(!status_request_pending(&out, &s("w2"), &s("p3")));
    assert!(capability_request_pending(&out, &s("w2"), &s("p2")));
    assert!(!capability_request_pending(&out, &s("w1"), &s("p2")));
    assert!(membership_proposal_request_pending(&out, &s("w2"), &s("p1"), &s("h1")));
    assert!(!membership_proposal_request_pending(&out, &s("w2"), &s("p2"), &s("h1")));
    assert!(request_pending(&out, &OutboundContext::Manifest { world: s("w1"), snapshot_number: 7 }));
    assert!(!request_pending(&out, &OutboundContext::Manifest { world: s("w1"), snapshot_number: 8 }));
    assert!(!request_pending(&[], &OutboundContext::Status { world: s("w1"), peer: s("p3") }));
}

#[test]
fn a_failed_request_forgets_the_observation_it_was_renewing() {
    let lease = OutboundContext::Lease { world: s("w1"), peer: s("p1"), generation: (3, 9) };
    assert_eq!(forgotten_on_failure(&lease), Some((PeerTable::LeaseAcks, s("w1"), s("p1"))));
    let status = OutboundContext::Status { world: s("w1"), peer: s("p3") };
    assert_eq!(forgotten_on_failure(&status), Some((PeerTable::PeerStatus, s("w1"), s("p3"))));
    let ballot = OutboundContext::RecoveryBallot { world: s("w1"), peer: s("p2"), ballot_hash: s("b1") };
    assert_eq!(forgotten_on_failure(&ballot), Some((PeerTable::RecoveryVotes, s("w1"), s("p2"))));
    let proposal = OutboundContext::MembershipProposal { world: s("w2"), peer: s("p1"), proposal_hash: s("h1") };
    assert_eq!(forgotten_on_failure(&proposal), Some((PeerTable::MembershipVotes, s("w2"), s("p1"))));
    let epoch = OutboundContext::Epoch { world: s("w2"), peer: s("p3"), generation: (4, 10) };
    assert_eq!(forgotten_on_failure(&epoch), Some((PeerTable::EpochAcks, s("w2"), s("p3"))));
    let capability = OutboundContext::HostCapability { world: s("w2"), peer: s("p2") };
    assert_eq!(forgotten_on_failure(&capability), Some((PeerTable::PeerCapability, s("w2"), s("p2"))));
    assert_eq!(forgotten_on_failure(&OutboundContext::Manifest { world: s("w1"), snapshot_number: 7 }), None);
    let commit = OutboundContext::MembershipCommit { world: s("w1"), peer: s("p1"), sequence: 2 };
    assert_eq!(forgotten_on_failure(&commit), None);
}

fn connected(transport: &str, peer: &str) -> AuthenticatedPeer {
    AuthenticatedPeer { transport_peer: s(transport), peer_id: s(peer) }
}

fn member(peer: &str, banned: bool) -> MemberEntry {
    MemberEntry { peer_id: s(peer), public_key: s("k"), key_peer_id: s(peer), authority_eligible: true, banned }
}

#[test]
fn statuses_are_asked_of_connected_members_without_an_outstanding_request() {
    let peers = vec![connected("t0", "me"), connected("t1", "p1"), connected("t2", "p2"), connected("t3", "p3"), connected("t4", "x")];
    let members = vec![member("me", false), member("p1", false), member("p2", true), member("p3", false)];
    let out = vec![OutboundContext::Status { world: s("w"), peer: s("p3") }];
    let targets = status_request_targets(&peers, &members, &s("me"), &out, &s("w"));
    assert_eq!(targets, vec![connected("t1", "p1"), connected("t2", "p2")]);
    let other_world = status_request_targets(&peers, &members, &s("me"), &out, &s("v"));
    assert_eq!(other_world, vec![connected("t1", "p1"), connected("t2", "p2"), connected("t3", "p3")]);
}

#[test]
fn capabilities_are_asked_only_of_unbanned_members() {
    let peers = vec![connected("t0", "me"), connected("t1", "p1"), connected("t2", "p2"), connected("t3", "p3")];
    let members = vec![member("me", false), member("p1", false), member("p2", true), member("p3", false)];
    let out = vec![OutboundContext::HostCapability { world: s("w"), peer: s("p1") }];
    let targets = capability_request_targets(&peers, &members, &s("me"), &out, &s("w"));
    assert_eq!(targets, vec![connected("t3", "p3")]);
}
