use swarm_cli::authorization::{
    authorize_epoch_members, authorize_snapshot_members, authorize_world_config, authorized_member,
    canonical_recovery_members, check_epoch_base, check_epoch_transition, check_recovery_ballot,
    check_recovery_base, check_snapshot_epoch, generation_response_matches, require_recovery_mode, solo_transition,
    validate_transfer_record, world_status_of, KnownAuthority, LatestSnapshot, MemberEntry, PeerCheckError,
    RecoveryBallot, TransitionNeed, validate_transfer_against_epoch,
};
use swarm_cli::host_readiness::EpochMode;
use swarm_cli::migration::{AuthorityGeneration, AuthorityTransfer, TransferPhase};

fn member(key: u8, banned: bool) -> MemberEntry {
    MemberEntry {
        peer_id: format!("peer-{key}"),
        public_key: format!("key-{key}"),
        key_peer_id: format!("peer-{key}"),
        authority_eligible: true,
        banned,
    }
}

fn peer(key: u8) -> String {
    format!("peer-{key}")
}

fn generation(peer_key: u8, epoch: u64, mode: EpochMode) -> AuthorityGeneration {
    AuthorityGeneration {
        world_id: "world".into(),
        authority_peer_id: peer(peer_key),
        authority_public_key: format!("key-{peer_key}"),
        epoch_number: epoch,
        fencing_token: epoch,
        mode,
    }
}

fn transfer(phase: TransferPhase, signer: u8) -> AuthorityTransfer {
    AuthorityTransfer {
        world_id: "world".into(),
        from_peer_id: peer(1),
        to_peer_id: peer(2),
        base_snapshot_hash: "snap".into(),
        next_epoch: 5,
        next_fencing_token: 5,
        phase,
        signer_peer_id: peer(signer),
    }
}

#[test]
fn current_member_is_authorized_but_stranger_and_removed_member_are_not() {
    let current = member(1, false);
    let current_peer = current.peer_id.clone();
    let stranger_peer = peer(2);
    let current_descriptor = vec![current];
    assert!(authorized_member(&current_descriptor, &current_peer).is_ok());
    assert!(authorized_member(&current_descriptor, &stranger_peer).is_err());

    let removed_descriptor: Vec<MemberEntry> = Vec::new();
    assert!(authorized_member(&removed_descriptor, &current_peer).is_err());
}

#[test]
fn banned_and_key_mismatched_members_are_not_authorized() {
    let banned = member(3, true);
    let banned_peer = banned.peer_id.clone();
    assert_eq!(authorized_member(&[banned], &banned_peer), Err(PeerCheckError::Banned));

    let claimed_peer = peer(4);
    let mismatched = MemberEntry {
        peer_id: claimed_peer.clone(),
        public_key: "key-5".into(),
        key_peer_id: peer(5),
        authority_eligible: true,
        banned: false,
    };
    assert_eq!(authorized_member(&[mismatched], &claimed_peer), Err(PeerCheckError::KeyMismatch));
}

#[test]
fn daemon_rejects_valid_non_authority_world_config() {
    let accepted = KnownAuthority::Accepted(peer(1), "key-1".into());
    let malicious = authorize_world_config(&peer(2), &peer(2), &"key-2".to_string(), &accepted);
    assert_eq!(malicious, Err(PeerCheckError::ConfigNotCurrentAuthority));
    let legitimate = authorize_world_config(&peer(1), &peer(1), &"key-1".to_string(), &accepted);
    assert!(legitimate.is_ok());
    let forwarded = authorize_world_config(&peer(2), &peer(1), &"key-1".to_string(), &accepted);
    assert_eq!(forwarded, Err(PeerCheckError::ConfigSenderMismatch));
    let bootstrap = KnownAuthority::Bootstrap(peer(1), "key-1".into());
    assert_eq!(
        authorize_world_config(&peer(2), &peer(2), &"key-2".to_string(), &bootstrap),
        Err(PeerCheckError::ConfigNotBootstrapAuthority)
    );
    assert_eq!(PeerCheckError::ConfigNotBootstrapAuthority.message(), "world config is not signed by the bootstrap authority");
}

#[test]
fn snapshots_and_epochs_need_an_eligible_authority_and_the_accepted_epoch() {
    let mut ineligible = member(2, false);
    ineligible.authority_eligible = false;
    let members = vec![member(1, false), ineligible];
    assert!(authorize_snapshot_members(&members, &peer(2), &peer(1), &"key-1".to_string()).is_ok());
    assert_eq!(
        authorize_snapshot_members(&members, &peer(1), &peer(2), &"key-2".to_string()),
        Err(PeerCheckError::SnapshotAuthorityIneligible)
    );
    assert_eq!(
        authorize_snapshot_members(&members, &peer(1), &peer(9), &"key-9".to_string()),
        Err(PeerCheckError::SnapshotAuthorityNotMember)
    );
    assert_eq!(
        authorize_snapshot_members(&members, &peer(9), &peer(1), &"key-1".to_string()),
        Err(PeerCheckError::NotMember)
    );
    assert_eq!(
        authorize_epoch_members(&members, &peer(1), &peer(1), &"key-other".to_string()),
        Err(PeerCheckError::EpochAuthorityIneligible)
    );
    assert_eq!(
        authorize_epoch_members(&members, &peer(1), &peer(9), &"key-9".to_string()),
        Err(PeerCheckError::NotMember)
    );
    let accepted = generation(1, 3, EpochMode::Quorum);
    assert!(check_snapshot_epoch(3, &peer(1), &"key-1".to_string(), Some(&accepted)).is_ok());
    assert_eq!(
        check_snapshot_epoch(2, &peer(1), &"key-1".to_string(), Some(&accepted)),
        Err(PeerCheckError::SnapshotEpochMismatch)
    );
    assert!(check_snapshot_epoch(2, &peer(7), &"key-7".to_string(), None).is_ok());
    assert_eq!(check_epoch_base(None, &"root".to_string()), Err(PeerCheckError::EpochWithoutBase));
    assert_eq!(check_epoch_base(Some(&"other".to_string()), &"root".to_string()), Err(PeerCheckError::EpochBaseMismatch));
    assert!(check_epoch_base(Some(&"root".to_string()), &"root".to_string()).is_ok());
    assert!(generation_response_matches((4, 9), 4, 9));
    assert!(!generation_response_matches((4, 9), 4, 8));
}

#[test]
fn epoch_transitions_follow_the_committed_transfer() {
    let current = generation(1, 4, EpochMode::Quorum);
    assert_eq!(check_epoch_transition(&current, &generation(1, 5, EpochMode::Quorum), None), Ok(TransitionNeed::Accept));
    assert_eq!(check_epoch_transition(&current, &generation(1, 5, EpochMode::Solo), None), Ok(TransitionNeed::CheckSolo));
    assert_eq!(
        check_epoch_transition(&current, &generation(1, 5, EpochMode::Recovery), None),
        Err(PeerCheckError::RecoveryNeedsCertificate)
    );
    let mut rekeyed = generation(1, 5, EpochMode::Quorum);
    rekeyed.authority_public_key = "key-new".into();
    assert_eq!(check_epoch_transition(&current, &rekeyed, None), Err(PeerCheckError::AuthorityKeyChanged));
    let next = generation(2, 5, EpochMode::Quorum);
    assert_eq!(check_epoch_transition(&current, &next, None), Err(PeerCheckError::TransferMissing));
    let committed = transfer(TransferPhase::Committed, 1);
    assert_eq!(check_epoch_transition(&current, &next, Some(&committed)), Ok(TransitionNeed::Accept));
    let accepted = transfer(TransferPhase::Accepted, 2);
    assert_eq!(check_epoch_transition(&current, &next, Some(&accepted)), Err(PeerCheckError::TransferMismatch));
    assert_eq!(solo_transition(false, 1), Err(PeerCheckError::SoloDisabled));
    assert_eq!(solo_transition(true, 2), Err(PeerCheckError::SoloWithSeveralMembers));
    assert!(solo_transition(true, 1).is_ok());
}

#[test]
fn transfer_phases_are_checked_against_membership_history_and_generation() {
    let members = vec![member(1, false), member(2, false)];
    let key1 = "key-1".to_string();
    let key2 = "key-2".to_string();
    let snap = "snap".to_string();
    let prepared = transfer(TransferPhase::Prepared, 1);
    assert!(validate_transfer_record(&members, &prepared, &key1, Some(&snap), Some((4, 4)), None).is_ok());
    assert_eq!(
        validate_transfer_record(&members, &prepared, &key1, Some(&snap), Some((3, 4)), None),
        Err(PeerCheckError::TransferGenerationMismatch)
    );
    assert_eq!(
        validate_transfer_record(&members, &prepared, &key1, Some(&snap), Some((u64::MAX, 4)), None),
        Err(PeerCheckError::GenerationExhausted)
    );
    assert_eq!(
        validate_transfer_record(&members, &prepared, &key1, Some(&"other".to_string()), None, None),
        Err(PeerCheckError::TransferWrongSnapshot)
    );
    assert_eq!(
        validate_transfer_record(&members, &prepared, &key1, None, None, None),
        Err(PeerCheckError::TransferWithoutSnapshot)
    );
    assert_eq!(
        validate_transfer_record(&members, &prepared, &key2, Some(&snap), None, None),
        Err(PeerCheckError::TransferSignerKeyMismatch)
    );
    let wrongly_signed = transfer(TransferPhase::Accepted, 1);
    assert_eq!(
        validate_transfer_record(&members, &wrongly_signed, &key1, Some(&snap), None, Some(&prepared)),
        Err(PeerCheckError::TransferWrongSigner)
    );
    let accepted = transfer(TransferPhase::Accepted, 2);
    assert!(validate_transfer_record(&members, &accepted, &key2, Some(&snap), None, Some(&prepared)).is_ok());
    assert_eq!(
        validate_transfer_record(&members, &accepted, &key2, Some(&snap), None, None),
        Err(PeerCheckError::TransferNotPrepared)
    );
    let committed = transfer(TransferPhase::Committed, 1);
    assert_eq!(
        validate_transfer_record(&members, &committed, &key1, Some(&snap), None, Some(&prepared)),
        Err(PeerCheckError::TransferDiscontinuous)
    );
    assert!(validate_transfer_record(&members, &committed, &key1, Some(&snap), None, Some(&accepted)).is_ok());
    let banned = vec![member(1, false), member(2, true)];
    assert_eq!(
        validate_transfer_record(&banned, &prepared, &key1, Some(&snap), None, None),
        Err(PeerCheckError::TransferParticipantsRejected)
    );
    assert_eq!(
        validate_transfer_record(&[member(2, false)], &prepared, &key1, Some(&snap), None, None),
        Err(PeerCheckError::TransferSourceNotMember)
    );
    assert_eq!(
        validate_transfer_record(&[member(1, false)], &prepared, &key1, Some(&snap), None, None),
        Err(PeerCheckError::TransferTargetNotMember)
    );
}

#[test]
fn recovery_epochs_must_match_their_ballot_and_local_history() {
    let record = generation(2, 6, EpochMode::Recovery);
    assert!(require_recovery_mode(&record).is_ok());
    assert_eq!(require_recovery_mode(&generation(2, 6, EpochMode::Quorum)), Err(PeerCheckError::NotRecoveryEpoch));
    let ballot = RecoveryBallot {
        candidate_peer_id: peer(2),
        candidate_public_key: "key-2".into(),
        target_epoch: 6,
        target_fencing_token: 6,
        base_state_hash: "state".into(),
        base_snapshot_hash: "snap".into(),
        membership_hash: "members".into(),
    };
    let state = "state".to_string();
    assert!(check_recovery_ballot(&peer(2), &record, &state, &ballot).is_ok());
    assert_eq!(check_recovery_ballot(&peer(1), &record, &state, &ballot), Err(PeerCheckError::BallotMismatch));
    let snap = "snap".to_string();
    let members_hash = "members".to_string();
    assert!(check_recovery_base(Some((&snap, &state)), &members_hash, &ballot).is_ok());
    assert_eq!(check_recovery_base(None, &members_hash, &ballot), Err(PeerCheckError::RecoveryWithoutBase));
    assert_eq!(
        check_recovery_base(Some((&snap, &"other".to_string())), &members_hash, &ballot),
        Err(PeerCheckError::RecoveryBaseMismatch)
    );
    assert_eq!(
        check_recovery_base(Some((&snap, &state)), &"old".to_string(), &ballot),
        Err(PeerCheckError::StaleMembership)
    );
    let members = vec![member(1, false), member(2, true), member(3, false)];
    assert_eq!(canonical_recovery_members(&members), vec![peer(1), peer(3)]);
}

#[test]
fn world_status_reports_accepted_epoch_and_latest_snapshot() {
    let world = "world".to_string();
    let fingerprint = "fp".to_string();
    assert!(world_status_of(&world, None, None, None, None).is_none());
    let empty = world_status_of(&world, Some(&fingerprint), None, None, None).unwrap();
    assert_eq!(empty.epoch, 0);
    assert_eq!(empty.sequence, 0);
    assert!(empty.latest_snapshot.is_none());
    assert!(!empty.authority_eligible);
    let latest = LatestSnapshot { epoch: 3, sequence: 12, manifest_hash: "m".into(), state_root: "s".into() };
    let status = world_status_of(&world, Some(&fingerprint), Some(&latest), Some((true, false)), None).unwrap();
    assert_eq!(status.epoch, 3);
    assert_eq!(status.sequence, 12);
    assert_eq!(status.latest_snapshot.as_deref(), Some("m"));
    assert_eq!(status.state_hash.as_deref(), Some("s"));
    assert!(status.authority_eligible);
    let status = world_status_of(&world, Some(&fingerprint), Some(&latest), Some((true, true)), Some(7)).unwrap();
    assert_eq!(status.epoch, 7);
    assert!(!status.authority_eligible);
}

#[test]
fn transfer_tokens_must_extend_the_held_generation() {
    let members = vec![member(1, false), member(2, false)];
    let current = generation(1, 4, EpochMode::Quorum);
    let snap = "snap".to_string();
    let key1 = "key-1".to_string();
    let prepared = transfer(TransferPhase::Prepared, 1);
    assert!(validate_transfer_against_epoch(&members, &prepared, &key1, &current, Some(&snap)).is_ok());
    assert_eq!(
        validate_transfer_against_epoch(&members, &prepared, &key1, &generation(1, 3, EpochMode::Quorum), Some(&snap)),
        Err(PeerCheckError::TransferNotExtending)
    );
    assert_eq!(
        validate_transfer_against_epoch(&members, &prepared, &key1, &current, None),
        Err(PeerCheckError::TransferPeerLacksSnapshot)
    );
    assert_eq!(
        validate_transfer_against_epoch(&members, &prepared, &key1, &current, Some(&"old".to_string())),
        Err(PeerCheckError::TransferSnapshotMismatch)
    );
    let mut other_world = generation(1, 4, EpochMode::Quorum);
    other_world.world_id = "elsewhere".into();
    assert_eq!(
        validate_transfer_against_epoch(&members, &prepared, &key1, &other_world, Some(&snap)),
        Err(PeerCheckError::TransferWorldMismatch)
    );
    let mut rekeyed = generation(1, 4, EpochMode::Quorum);
    rekeyed.authority_public_key = "key-9".into();
    assert_eq!(
        validate_transfer_against_epoch(&members, &prepared, &key1, &rekeyed, Some(&snap)),
        Err(PeerCheckError::TransferSourceKeyMismatch)
    );
    let mut zero = transfer(TransferPhase::Prepared, 1);
    zero.next_epoch = 0;
    assert_eq!(
        validate_transfer_against_epoch(&members, &zero, &key1, &current, Some(&snap)),
        Err(PeerCheckError::NoSourceEpoch)
    );
    assert_eq!(
        PeerCheckError::TransferSnapshotMismatch.message(),
        "transfer token does not reference this peer's exact canonical snapshot"
    );
}
