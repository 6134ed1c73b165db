use swarm_cli::authority_tick::{
    authority_step, certificate_for_generation, confirmed_count, recovery_attempt_allowed, recovery_view, world_tick,
    AuthorityStep, Confirmation, MemberObservation, ObservedStatus, RecoveryBasis, WorldFacts, WorldTick,
    STATUS_FRESHNESS_NANOS, membership_promotion, snapshot_promotion, ArtifactError, MembershipHead, SnapshotHead,
    promotion_reason, solo_branch_step, successor_epoch, SoloBranchHead, SoloBranchStep, peer_readiness_observations,
    ObservedPeerCapability, ObservedPeerStatus,
};
use swarm_cli::migration::{AuthorityGeneration, LocalIdentity};
use swarm_cli::authorization::MemberEntry;
use swarm_cli::host_readiness::{
    EpochMode, HostCapability, HostRuntimeReadiness, PeerStatus, ServerModsReadiness, WorldMember,
};

fn s(text: &str) -> String {
    text.to_string()
}

fn member(n: u8, eligible: bool, banned: bool) -> MemberEntry {
    MemberEntry {
        peer_id: format!("peer-{n}"),
        public_key: format!("key-{n}"),
        key_peer_id: format!("peer-{n}"),
        authority_eligible: eligible,
        banned,
    }
}

fn facts() -> WorldFacts {
    WorldFacts {
        sleeping: false,
        membership_prepared: false,
        descriptor_loaded: true,
        local_entry: Some((true, false, true)),
        epoch: Some((false, EpochMode::Quorum)),
        active_members: 3,
    }
}

#[test]
fn the_tick_leads_follows_or_stands_aside() {
    assert_eq!(world_tick(&facts()), WorldTick::Follow { watch: true });
    assert_eq!(world_tick(&WorldFacts { active_members: 1, ..facts() }), WorldTick::Follow { watch: false });
    assert_eq!(world_tick(&WorldFacts { sleeping: true, ..facts() }), WorldTick::ClearSleeping);
    assert_eq!(world_tick(&WorldFacts { membership_prepared: true, ..facts() }), WorldTick::DriveMembership);
    assert_eq!(world_tick(&WorldFacts { descriptor_loaded: false, ..facts() }), WorldTick::ClearPermit);
    assert_eq!(world_tick(&WorldFacts { local_entry: None, ..facts() }), WorldTick::ClearPermit);
    assert_eq!(world_tick(&WorldFacts { local_entry: Some((false, false, true)), ..facts() }), WorldTick::ClearPermit);
    assert_eq!(world_tick(&WorldFacts { epoch: None, ..facts() }), WorldTick::ClearPermit);
    assert_eq!(
        world_tick(&WorldFacts { epoch: Some((true, EpochMode::Recovery)), ..facts() }),
        WorldTick::Lead { recovery: true }
    );
    assert!(recovery_attempt_allowed(false, true, true));
    assert!(!recovery_attempt_allowed(true, true, true));
    assert!(!recovery_attempt_allowed(false, false, true));
}

fn status(epoch: u64, eligible: bool) -> PeerStatus {
    PeerStatus {
        world_id: s("world"),
        epoch,
        sequence: 9,
        latest_snapshot: Some(s("snap")),
        state_hash: Some(s("root")),
        compatibility_fingerprint: s("fp"),
        authority_eligible: eligible,
    }
}

#[test]
fn recovery_sees_only_fresh_agreeing_peers() {
    let basis = RecoveryBasis {
        local_peer: s("peer-1"),
        world_id: s("world"),
        epoch_number: 4,
        latest_sequence: 9,
        latest_hash: s("snap"),
        latest_state_root: s("root"),
        fingerprint: s("fp"),
    };
    let members = vec![
        member(1, true, false),
        member(2, true, false),
        member(3, false, false),
        member(4, true, false),
        member(5, true, true),
        member(6, true, false),
    ];
    let seen = |st: PeerStatus| MemberObservation {
        authenticated: true,
        status: Some(ObservedStatus { status: st, age_nanos: 1 }),
    };
    let observations = vec![
        seen(status(4, true)),
        seen(status(4, true)),
        seen(status(4, true)),
        MemberObservation { authenticated: true, status: Some(ObservedStatus { status: status(4, true), age_nanos: STATUS_FRESHNESS_NANOS + 1 }) },
        seen(status(4, true)),
        seen(status(3, true)),
    ];
    let (visible, candidates) = recovery_view(&members, &observations, &basis);
    assert_eq!(visible, vec![s("peer-1"), s("peer-2"), s("peer-3")]);
    assert_eq!(candidates, vec![s("peer-1"), s("peer-2")]);
}

#[test]
fn authority_counts_fresh_confirmations() {
    let members = vec![member(1, true, false), member(2, true, false), member(3, true, false), member(4, true, true)];
    let acks = vec![
        Confirmation { authenticated: true, lease_ack: Some((4, 4, 0)), epoch_acked: true },
        Confirmation { authenticated: true, lease_ack: Some((4, 4, 10)), epoch_acked: false },
        Confirmation { authenticated: true, lease_ack: Some((3, 3, 10)), epoch_acked: true },
        Confirmation { authenticated: true, lease_ack: Some((4, 4, 10)), epoch_acked: true },
    ];
    assert_eq!(confirmed_count(&members, &acks, &s("peer-1"), (4, 4), false), 2);
    assert_eq!(confirmed_count(&members, &acks, &s("peer-1"), (4, 4), true), 2);
    assert_eq!(authority_step(true, EpochMode::Solo, 3), AuthorityStep::RestoreQuorum);
    assert_eq!(authority_step(true, EpochMode::Quorum, 3), AuthorityStep::Heartbeat(4));
    assert_eq!(authority_step(true, EpochMode::Quorum, u64::MAX), AuthorityStep::Heartbeat(u64::MAX));
    assert_eq!(authority_step(false, EpochMode::Quorum, 3), AuthorityStep::LoseQuorum);
    assert!(certificate_for_generation(5, 5, &s("peer-1"), (5, 5), &s("peer-1")));
    assert!(!certificate_for_generation(5, 5, &s("peer-2"), (5, 5), &s("peer-1")));
}

fn head(epoch: u64, sequence: u64, peer: &str) -> SnapshotHead {
    SnapshotHead {
        epoch,
        sequence,
        authority_peer_id: peer.into(),
        authority_public_key: format!("key-{}", &peer[5..]),
        state_root: "root".into(),
    }
}

#[test]
fn leaders_promote_the_previous_epochs_artifacts_exactly_once() {
    let (root, p1, k1) = (s("root"), s("peer-1"), s("key-1"));
    assert_eq!(snapshot_promotion(&head(4, 9, "peer-2"), 5, &root, &p1, &k1, false), Ok(Some(10)));
    assert_eq!(snapshot_promotion(&head(5, 10, "peer-1"), 5, &root, &p1, &k1, false), Ok(None));
    assert_eq!(snapshot_promotion(&head(3, 9, "peer-2"), 5, &root, &p1, &k1, false), Err(ArtifactError::NotDirectPromotion));
    assert_eq!(snapshot_promotion(&head(5, 10, "peer-2"), 5, &root, &p1, &k1, true), Err(ArtifactError::SnapshotConflict));
    assert_eq!(snapshot_promotion(&head(4, u64::MAX, "peer-2"), 5, &root, &p1, &k1, true), Err(ArtifactError::SnapshotSequenceExhausted));
    assert_eq!(snapshot_promotion(&head(4, u64::MAX, "peer-2"), 5, &root, &p1, &k1, false), Ok(Some(u64::MAX)));
    let membership = |epoch: u64, sequence: u64, peer: &str| MembershipHead {
        epoch,
        sequence,
        authority_peer_id: peer.into(),
        authority_public_key: format!("key-{}", &peer[5..]),
    };
    assert_eq!(membership_promotion(&membership(4, 2, "peer-2"), 5, &p1, &k1, true), Ok(Some(3)));
    assert_eq!(membership_promotion(&membership(5, 2, "peer-1"), 5, &p1, &k1, true), Ok(None));
    assert_eq!(membership_promotion(&membership(6, 2, "peer-1"), 5, &p1, &k1, true), Err(ArtifactError::MembershipAhead));
    assert_eq!(ArtifactError::MembershipAhead.message(true), "membership is ahead of the accepted recovery epoch");
    assert_eq!(ArtifactError::SnapshotConflict.message(false), "latest snapshot conflicts with the accepted authority epoch");
}

#[test]
fn leaders_sign_the_next_generation_and_keep_their_solo_branch() {
    let previous = AuthorityGeneration {
        world_id: s("world"),
        authority_peer_id: s("peer-2"),
        authority_public_key: s("key-2"),
        epoch_number: 4,
        fencing_token: 7,
        mode: EpochMode::Quorum,
    };
    let local = LocalIdentity { peer_id: s("peer-1"), public_key: s("key-1") };
    let next = successor_epoch(&previous, &local, EpochMode::Recovery).unwrap();
    assert_eq!((next.epoch_number, next.fencing_token), (5, 8));
    assert_eq!(next.authority_peer_id, "peer-1");
    assert_eq!(next.mode, EpochMode::Recovery);
    let exhausted = AuthorityGeneration { fencing_token: u64::MAX, ..previous };
    assert!(successor_epoch(&exhausted, &local, EpochMode::Quorum).is_none());
    assert_eq!(promotion_reason(EpochMode::Recovery), "automatic crash recovery after durable quorum ballot");
    assert_eq!(promotion_reason(EpochMode::Quorum), "quorum restored after explicit solo history replication");

    let branch = SoloBranchHead { world_id: s("world"), authority_peer_id: s("peer-1"), head_snapshot_hash: s("h"), state_hash: s("r") };
    let (w, p1) = (s("world"), s("peer-1"));
    assert_eq!(solo_branch_step(&branch, &w, &p1, &s("h"), &s("r")), Ok(SoloBranchStep::Unchanged));
    assert_eq!(solo_branch_step(&branch, &w, &p1, &s("h2"), &s("r")), Ok(SoloBranchStep::Advance));
    assert!(solo_branch_step(&branch, &w, &s("peer-2"), &s("h"), &s("r")).is_err());
}

fn world_member(peer: &str, banned: bool) -> WorldMember {
    WorldMember { peer_id: s(peer), authority_eligible: true, banned }
}

fn capability() -> HostCapability {
    HostCapability {
        world_id: s("world"),
        compatibility_fingerprint: s("fp"),
        runtime: HostRuntimeReadiness::Ready,
        server_mods: ServerModsReadiness::Ready,
        conflict_free: true,
        recovery_quorum_without_authority: false,
    }
}

#[test]
fn readiness_observations_cover_other_unbanned_members_with_fresh_reports_only() {
    let members = vec![world_member("me", false), world_member("a", false), world_member("b", true), world_member("c", false)];
    let connected = vec![s("a"), s("z")];
    let statuses = vec![
        ObservedPeerStatus { peer_id: s("a"), age_nanos: STATUS_FRESHNESS_NANOS, status: status(4, true) },
        ObservedPeerStatus { peer_id: s("c"), age_nanos: STATUS_FRESHNESS_NANOS + 1, status: status(4, true) },
    ];
    let capabilities = vec![ObservedPeerCapability { peer_id: s("c"), age_nanos: 0, capability: capability() }];
    let observations = peer_readiness_observations(&members, &s("me"), &connected, &statuses, &capabilities);
    assert_eq!(observations.len(), 2);
    assert_eq!(observations[0].peer_id, "a");
    assert!(observations[0].reachable);
    assert_eq!(observations[0].status.as_ref().map(|v| v.epoch), Some(4));
    assert!(observations[0].capability.is_none());
    assert_eq!(observations[1].peer_id, "c");
    assert!(!observations[1].reachable);
    assert!(observations[1].status.is_none());
    assert!(observations[1].capability.as_ref().is_some_and(|v| v.conflict_free));
}
