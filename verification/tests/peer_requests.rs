use swarm_cli::authorization::MemberEntry;
use swarm_cli::host_readiness::EpochMode;
use swarm_cli::migration::AuthorityGeneration;
use swarm_cli::peer_requests::{
    after_rejection, ballot_usable, next_recovery_round, recovery_round_floor,
    accept_epoch, accept_membership_record, accept_recovery_epoch, check_ballot_sender, check_ballot_vote,
    check_lease, check_lease_sender, check_plain_epoch, check_sleep, check_sleep_sender, recovery_window_open,
    AcceptedEpoch, Acceptance, BallotFacts, CommittedMembership, InboundLease, RecoveryPromise, RequestRejection,
    AUTHORITY_LEASE_DURATION_MS, RECOVERY_SETTLE_DELAY_NANOS,
};

fn s(text: &str) -> String {
    text.to_string()
}

fn member(n: u8) -> MemberEntry {
    MemberEntry {
        peer_id: format!("peer-{n}"),
        public_key: format!("key-{n}"),
        key_peer_id: format!("peer-{n}"),
        authority_eligible: true,
        banned: false,
    }
}

fn epoch(n: u64, mode: EpochMode) -> AuthorityGeneration {
    AuthorityGeneration {
        world_id: s("world"),
        authority_peer_id: s("peer-1"),
        authority_public_key: s("key-1"),
        epoch_number: n,
        fencing_token: n,
        mode,
    }
}

fn accepted(n: u64, identical: bool) -> AcceptedEpoch {
    AcceptedEpoch { epoch_number: n, fencing_token: n, identical, record_hash: s("h") }
}

#[test]
fn epochs_advance_exactly_once() {
    assert_eq!(check_plain_epoch(&epoch(2, EpochMode::Recovery)), Err(RequestRejection::RecoveryNeedsQuorum));
    assert!(check_plain_epoch(&epoch(2, EpochMode::Quorum)).is_ok());
    let h = s("h");
    assert_eq!(accept_epoch(3, 3, Some(&h), Some(&accepted(2, false)), None), Ok(Acceptance::Store));
    assert_eq!(accept_epoch(2, 2, None, Some(&accepted(2, true)), None), Ok(Acceptance::AlreadyAccepted));
    assert_eq!(accept_epoch(4, 4, Some(&h), Some(&accepted(2, false)), None), Err(RequestRejection::EpochNotNext));
    assert_eq!(accept_epoch(3, 3, Some(&s("x")), Some(&accepted(2, false)), None), Err(RequestRejection::EpochNotNext));
    assert_eq!(
        accept_epoch(3, 3, Some(&h), Some(&accepted(u64::MAX, false)), None),
        Err(RequestRejection::GenerationExhausted)
    );
    assert_eq!(accept_epoch(1, 1, None, None, Some(2)), Err(RequestRejection::EpochOlderThanSnapshot));
    assert_eq!(accept_epoch(2, 0, None, None, Some(2)), Err(RequestRejection::EpochOlderThanSnapshot));
    assert_eq!(accept_epoch(2, 1, None, None, Some(2)), Ok(Acceptance::Store));
    assert_eq!(accept_epoch(0, 0, None, None, None), Ok(Acceptance::Store));
}

#[test]
fn certified_recovery_epochs_respect_durable_promises() {
    let h = s("h");
    let current = accepted(2, false);
    assert_eq!(accept_recovery_epoch(3, 3, Some(&h), Some(&current), None, 1), Ok(Acceptance::Store));
    assert_eq!(
        accept_recovery_epoch(5, 5, Some(&h), Some(&current), None, 1),
        Err(RequestRejection::RecoveryEpochNotNext)
    );
    let newer = RecoveryPromise { round: 4, same_ballot: false };
    assert_eq!(
        accept_recovery_epoch(3, 3, Some(&h), Some(&current), Some(&newer), 3),
        Err(RequestRejection::RecoveryEpochStale)
    );
    let conflicting = RecoveryPromise { round: 3, same_ballot: false };
    assert_eq!(
        accept_recovery_epoch(3, 3, Some(&h), Some(&current), Some(&conflicting), 3),
        Err(RequestRejection::RecoveryEpochConflicts)
    );
    let same = RecoveryPromise { round: 3, same_ballot: true };
    assert_eq!(accept_recovery_epoch(3, 3, Some(&h), None, Some(&same), 3), Ok(Acceptance::Store));
    assert_eq!(
        accept_recovery_epoch(2, 2, None, Some(&accepted(2, true)), Some(&newer), 3),
        Ok(Acceptance::AlreadyAccepted)
    );
}

#[test]
fn leases_and_sleep_records_follow_the_accepted_generation() {
    let members = vec![member(1), member(2)];
    let current = epoch(4, EpochMode::Quorum);
    let (p1, k1) = (s("peer-1"), s("key-1"));
    assert!(check_lease(&members, &p1, &k1, AUTHORITY_LEASE_DURATION_MS, 4, 4, &current).is_ok());
    assert_eq!(check_lease(&members, &p1, &k1, 1, 4, 4, &current), Err(RequestRejection::LeaseDurationMismatch));
    assert_eq!(
        check_lease(&members, &p1, &k1, AUTHORITY_LEASE_DURATION_MS, 5, 5, &current),
        Err(RequestRejection::LeaseGenerationMismatch)
    );
    assert_eq!(
        check_lease(&members, &s("peer-2"), &s("key-2"), AUTHORITY_LEASE_DURATION_MS, 4, 4, &current),
        Err(RequestRejection::LeaseAuthorityMismatch)
    );
    assert_eq!(
        check_lease(&members, &p1, &s("key-x"), AUTHORITY_LEASE_DURATION_MS, 4, 4, &current),
        Err(RequestRejection::LeaseAuthorityIneligible)
    );
    assert_eq!(check_lease_sender(&s("a"), &s("b")), Err(RequestRejection::LeaseSenderMismatch));
    let snap = s("snap");
    assert!(check_sleep(&members, &p1, &k1, 4, 4, &current, Some(&snap), &snap).is_ok());
    assert_eq!(
        check_sleep(&members, &p1, &k1, 4, 4, &current, None, &snap),
        Err(RequestRejection::SleepWithoutSnapshot)
    );
    assert_eq!(
        check_sleep(&members, &p1, &k1, 4, 4, &current, Some(&s("other")), &snap),
        Err(RequestRejection::SleepWrongSnapshot)
    );
    assert_eq!(
        check_sleep(&members, &p1, &k1, 3, 4, &current, Some(&snap), &snap),
        Err(RequestRejection::SleepGenerationMismatch)
    );
    assert_eq!(check_sleep_sender(&s("a"), &s("b")), Err(RequestRejection::SleepSenderMismatch));
}

#[test]
fn recovery_votes_wait_for_the_lease_window() {
    let lease = InboundLease { epoch: 4, fencing_token: 4, expires_at: 10 };
    assert!(!recovery_window_open(Some(&lease), Some(0), 4, 4, 10 + RECOVERY_SETTLE_DELAY_NANOS - 1));
    assert!(recovery_window_open(Some(&lease), None, 4, 4, 10 + RECOVERY_SETTLE_DELAY_NANOS));
    assert!(!recovery_window_open(Some(&lease), Some(0), 3, 9, 1_000_000_000_000));
    assert!(recovery_window_open(Some(&lease), Some(5), 5, 5, 5));
    assert!(!recovery_window_open(None, Some(5), 5, 5, 4));
    assert!(!recovery_window_open(None, None, 5, 5, 4));

    let members = vec![member(1), member(2)];
    let current = epoch(4, EpochMode::Quorum);
    let ballot = BallotFacts {
        candidate_peer_id: s("peer-2"),
        candidate_public_key: s("key-2"),
        base_epoch: 4,
        base_fencing_token: 4,
        target_epoch: 5,
        target_fencing_token: 5,
        base_snapshot_hash: s("snap"),
        base_state_hash: s("state"),
        membership_hash: s("members"),
    };
    let (snap, state, members_hash) = (s("snap"), s("state"), s("members"));
    let vote = |connected: bool, open: bool| {
        check_ballot_vote(&members, &ballot, &current, connected, open, Some((&snap, &state)), &members_hash)
    };
    assert!(vote(false, true).is_ok());
    assert_eq!(vote(true, true), Err(RequestRejection::AuthorityConnected));
    assert_eq!(vote(false, false), Err(RequestRejection::LeaseNotExpired));
    assert_eq!(
        check_ballot_vote(&members, &ballot, &epoch(3, EpochMode::Quorum), false, true, Some((&snap, &state)), &members_hash),
        Err(RequestRejection::BallotNotNext)
    );
    assert_eq!(
        check_ballot_vote(&members, &ballot, &current, false, true, None, &members_hash),
        Err(RequestRejection::BallotWithoutBase)
    );
    assert_eq!(
        check_ballot_vote(&members, &ballot, &current, false, true, Some((&snap, &state)), &s("old")),
        Err(RequestRejection::BallotMembershipStale)
    );
    assert_eq!(
        check_ballot_vote(&[member(1)], &ballot, &current, false, true, Some((&snap, &state)), &members_hash),
        Err(RequestRejection::CandidateNotMember)
    );
    assert_eq!(check_ballot_sender(&s("peer-1"), &s("peer-2")), Err(RequestRejection::BallotSenderMismatch));
}

#[test]
fn membership_records_extend_the_committed_one() {
    let h = s("h");
    let (p1, k1) = (s("peer-1"), s("key-1"));
    let current = epoch(4, EpochMode::Quorum);
    let committed = CommittedMembership { identical: false, same_members: true, record_hash: s("h"), sequence: 7, epoch: 4 };
    assert_eq!(accept_membership_record(4, 8, &p1, &k1, Some(&h), Some(&current), Some(&committed)), Ok(Acceptance::Store));
    assert_eq!(
        accept_membership_record(5, 8, &p1, &k1, Some(&h), Some(&current), Some(&committed)),
        Err(RequestRejection::MembershipAheadOfEpoch)
    );
    assert_eq!(
        accept_membership_record(4, 8, &s("peer-2"), &s("key-2"), Some(&h), Some(&current), Some(&committed)),
        Err(RequestRejection::MembershipAuthorityMismatch)
    );
    assert_eq!(
        accept_membership_record(4, 9, &p1, &k1, Some(&h), Some(&current), Some(&committed)),
        Err(RequestRejection::MembershipNotNext)
    );
    assert_eq!(
        accept_membership_record(3, 8, &p1, &k1, Some(&h), Some(&current), Some(&committed)),
        Err(RequestRejection::MembershipStale)
    );
    let changed = CommittedMembership { same_members: false, ..CommittedMembership { identical: false, same_members: true, record_hash: s("h"), sequence: 7, epoch: 4 } };
    assert_eq!(
        accept_membership_record(4, 8, &p1, &k1, Some(&h), Some(&current), Some(&changed)),
        Err(RequestRejection::VoterSetChange)
    );
    let full = CommittedMembership { identical: false, same_members: true, record_hash: s("h"), sequence: u64::MAX, epoch: 4 };
    assert_eq!(
        accept_membership_record(4, 8, &p1, &k1, Some(&h), Some(&current), Some(&full)),
        Err(RequestRejection::MembershipSequenceExhausted)
    );
    assert_eq!(accept_membership_record(0, 1, &p1, &k1, None, None, None), Ok(Acceptance::Store));
    assert_eq!(
        accept_membership_record(0, 2, &p1, &k1, None, None, None),
        Err(RequestRejection::MembershipNotGenesis)
    );
    assert_eq!(RequestRejection::MembershipSequenceExhausted.message(), "membership sequence counter exhausted");
}

#[test]
fn recovery_rounds_move_forward() {
    assert_eq!(recovery_round_floor(Some(3), Some(5)), 5);
    assert_eq!(recovery_round_floor(Some(7), None), 7);
    assert_eq!(recovery_round_floor(None, None), 0);
    assert_eq!(next_recovery_round(5), Some(6));
    assert_eq!(next_recovery_round(u64::MAX), None);
    assert_eq!(after_rejection(Some(4), Some(2), 6), (Some(6), true));
    assert_eq!(after_rejection(Some(4), Some(9), 6), (Some(9), true));
    assert_eq!(after_rejection(Some(7), Some(2), 6), (Some(2), false));
    assert_eq!(after_rejection(None, None, 0), (Some(0), true));
    let ballot = BallotFacts {
        candidate_peer_id: s("peer-2"),
        candidate_public_key: s("key-2"),
        base_epoch: 4,
        base_fencing_token: 4,
        target_epoch: 5,
        target_fencing_token: 5,
        base_snapshot_hash: s("snap"),
        base_state_hash: s("state"),
        membership_hash: s("members"),
    };
    let mut moved = BallotFacts { base_snapshot_hash: s("newer"), ..BallotFacts { ..ballot_copy(&ballot) } };
    assert!(ballot_usable(&ballot, 3, &ballot_copy(&ballot), 3));
    assert!(!ballot_usable(&ballot, 2, &ballot_copy(&ballot), 3));
    assert!(!ballot_usable(&ballot, 3, &moved, 3));
    moved.base_snapshot_hash = s("snap");
    assert!(ballot_usable(&ballot, 3, &moved, 0));
}

fn ballot_copy(b: &BallotFacts) -> BallotFacts {
    BallotFacts {
        candidate_peer_id: b.candidate_peer_id.clone(),
        candidate_public_key: b.candidate_public_key.clone(),
        base_epoch: b.base_epoch,
        base_fencing_token: b.base_fencing_token,
        target_epoch: b.target_epoch,
        target_fencing_token: b.target_fencing_token,
        base_snapshot_hash: b.base_snapshot_hash.clone(),
        base_state_hash: b.base_state_hash.clone(),
        membership_hash: b.membership_hash.clone(),
    }
}
