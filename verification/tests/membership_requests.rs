use swarm_cli::authorization::MemberEntry;
use swarm_cli::membership_requests::{
    answer_join, answer_leave, check_invite_genesis, check_join_sender, check_leave_sender, CurrentMembership,
    MembershipAnswer, MembershipRequestError, PreparedTransition, check_proposal_for_local,
    check_certificate_for_local, stored_certificate_step, transition_recipients, CommittedAgainstCertificate,
    PreviousAuthority, StagedJoin, StoredCertificateStep, pending_join_satisfied, pending_leave_satisfied,
};

fn member(n: u8, banned: bool) -> MemberEntry {
    MemberEntry {
        peer_id: format!("peer-{n}"),
        public_key: format!("key-{n}"),
        key_peer_id: format!("peer-{n}"),
        authority_eligible: true,
        banned,
    }
}

fn s(text: &str) -> String {
    text.to_string()
}

fn current() -> CurrentMembership {
    CurrentMembership { authority_peer_id: s("peer-1"), authority_public_key: s("key-1"), sequence: 4 }
}

#[test]
fn join_adds_the_invited_peer_at_the_next_sequence() {
    let descriptor = vec![member(1, false), member(2, false)];
    let joining = member(3, false);
    let answer = answer_join(&s("peer-1"), &s("key-1"), &current(), &s("peer-1"), &s("key-1"), &descriptor, &joining, None)
        .unwrap();
    match answer {
        MembershipAnswer::Propose(members, sequence) => {
            assert_eq!(sequence, 5);
            let ids: Vec<&str> = members.iter().map(|m| m.peer_id.as_str()).collect();
            assert_eq!(ids, vec!["peer-1", "peer-2", "peer-3"]);
        }
        _ => panic!("expected a proposal"),
    }
}

#[test]
fn join_refusals_and_repeats() {
    let descriptor = vec![member(1, false), member(2, false)];
    let joining = member(3, false);
    let refuse = |local: &str, inviter: &str| {
        answer_join(&s(local), &s("key-1"), &current(), &s(inviter), &s("key-1"), &descriptor, &joining, None)
    };
    assert!(matches!(refuse("peer-2", "peer-1"), Err(MembershipRequestError::JoinNotLocalAuthority)));
    assert!(matches!(refuse("peer-1", "peer-2"), Err(MembershipRequestError::InviteNotFromAuthority)));

    let already = answer_join(&s("peer-1"), &s("key-1"), &current(), &s("peer-1"), &s("key-1"), &descriptor, &member(2, false), None);
    assert!(matches!(already, Ok(MembershipAnswer::AlreadyDone(4))));
    let mut impostor = member(2, false);
    impostor.public_key = s("other");
    let conflict = answer_join(&s("peer-1"), &s("key-1"), &current(), &s("peer-1"), &s("key-1"), &descriptor, &impostor, None);
    assert!(matches!(conflict, Err(MembershipRequestError::JoiningPeerConflicts)));

    let prepared = PreparedTransition {
        extends_current: true,
        proposed_members: vec![member(1, false), member(2, false), member(3, false)],
        proposed_sequence: 5,
    };
    let again = answer_join(&s("peer-1"), &s("key-1"), &current(), &s("peer-1"), &s("key-1"), &descriptor, &joining, Some(&prepared));
    assert!(matches!(again, Ok(MembershipAnswer::OfferPrepared(5))));
    let other = answer_join(&s("peer-1"), &s("key-1"), &current(), &s("peer-1"), &s("key-1"), &descriptor, &member(4, false), Some(&prepared));
    assert!(matches!(other, Err(MembershipRequestError::TransitionPrepared)));

    let exhausted = CurrentMembership { sequence: u64::MAX, ..current() };
    let full = answer_join(&s("peer-1"), &s("key-1"), &exhausted, &s("peer-1"), &s("key-1"), &descriptor, &joining, None);
    assert!(matches!(full, Err(MembershipRequestError::SequenceExhausted)));

    let banned_inviter = vec![member(1, true)];
    let banned = answer_join(&s("peer-1"), &s("key-1"), &current(), &s("peer-1"), &s("key-1"), &banned_inviter, &joining, None);
    assert!(matches!(banned, Err(MembershipRequestError::InviteSignerRejected)));
    let missing = answer_join(&s("peer-1"), &s("key-1"), &current(), &s("peer-1"), &s("key-1"), &[], &joining, None);
    assert!(matches!(missing, Err(MembershipRequestError::InviteSignerNotMember)));

    assert!(check_join_sender(&s("a"), &s("a")).is_ok());
    assert_eq!(check_join_sender(&s("a"), &s("b")), Err(MembershipRequestError::JoinIdentityMismatch));
    assert_eq!(
        check_invite_genesis(&s("w"), &s("f"), &s("w"), &s("g")),
        Err(MembershipRequestError::InviteGenesisMismatch)
    );
    assert_eq!(MembershipRequestError::TransitionPrepared.message(), "another membership transition is already durably prepared");
}

#[test]
fn leave_drops_the_peer_and_refuses_the_authority() {
    let descriptor = vec![member(1, false), member(2, false), member(3, false)];
    let h = s("hash");
    let answer = answer_leave(&s("peer-1"), &s("key-1"), &current(), &h, &h, &descriptor, &s("peer-2"), &s("key-2"), None)
        .unwrap();
    match answer {
        MembershipAnswer::Propose(members, sequence) => {
            assert_eq!(sequence, 5);
            let ids: Vec<&str> = members.iter().map(|m| m.peer_id.as_str()).collect();
            assert_eq!(ids, vec!["peer-1", "peer-3"]);
        }
        _ => panic!("expected a proposal"),
    }
    let leave = |peer: &str, key: &str, request_hash: &str| {
        answer_leave(&s("peer-1"), &s("key-1"), &current(), &h, &s(request_hash), &descriptor, &s(peer), &s(key), None)
    };
    assert!(matches!(leave("peer-1", "key-1", "hash"), Err(MembershipRequestError::AuthorityCannotLeave)));
    assert!(matches!(leave("peer-2", "key-2", "old"), Err(MembershipRequestError::StaleMembership)));
    assert!(matches!(leave("peer-9", "key-9", "hash"), Err(MembershipRequestError::LeavingPeerNotMember)));
    assert!(matches!(leave("peer-2", "key-x", "hash"), Err(MembershipRequestError::LeavingKeyMismatch)));

    let prepared = PreparedTransition {
        extends_current: true,
        proposed_members: vec![member(1, false), member(3, false)],
        proposed_sequence: 5,
    };
    let again = answer_leave(&s("peer-1"), &s("key-1"), &current(), &h, &h, &descriptor, &s("peer-2"), &s("key-2"), Some(&prepared));
    assert!(matches!(again, Ok(MembershipAnswer::OfferPrepared(5))));
    let other = answer_leave(&s("peer-1"), &s("key-1"), &current(), &h, &h, &descriptor, &s("peer-3"), &s("key-3"), Some(&prepared));
    assert!(matches!(other, Err(MembershipRequestError::TransitionPrepared)));
    let not_local = answer_leave(&s("peer-2"), &s("key-2"), &current(), &h, &h, &descriptor, &s("peer-3"), &s("key-3"), None);
    assert!(matches!(not_local, Err(MembershipRequestError::LeaveNotLocalAuthority)));
    assert_eq!(check_leave_sender(&s("a"), &s("b")), Err(MembershipRequestError::LeaveIdentityMismatch));
}

#[test]
fn proposals_are_voted_only_by_their_voters() {
    let previous = vec![member(1, false), member(2, false)];
    let proposed = vec![member(1, false), member(2, false), member(3, false)];
    let authority = PreviousAuthority { peer_id: s("peer-1"), public_key: s("key-1") };
    assert!(check_proposal_for_local(&s("peer-2"), &s("key-2"), &previous, &proposed, &authority, Some(true), None, 0).is_ok());
    assert_eq!(
        check_proposal_for_local(&s("peer-2"), &s("key-2"), &previous, &proposed, &authority, Some(false), None, 0),
        Err(MembershipRequestError::ProposalNotExtending)
    );
    assert_eq!(
        check_proposal_for_local(&s("peer-9"), &s("key-9"), &previous, &proposed, &authority, Some(true), None, 0),
        Err(MembershipRequestError::NotVoter)
    );
    assert_eq!(
        check_proposal_for_local(&s("peer-2"), &s("key-x"), &previous, &proposed, &authority, Some(true), None, 0),
        Err(MembershipRequestError::VoterKeyMismatch)
    );
    assert_eq!(
        check_proposal_for_local(&s("peer-3"), &s("key-3"), &previous, &proposed, &authority, None, None, 0),
        Err(MembershipRequestError::NoCommittedOrPendingJoin)
    );
    let join = StagedJoin {
        member: member(3, false),
        inviter_peer_id: s("peer-1"),
        inviter_public_key: s("key-1"),
        invite_expires_unix_ms: 100,
    };
    assert!(check_proposal_for_local(&s("peer-3"), &s("key-3"), &previous, &proposed, &authority, None, Some(&join), 100).is_ok());
    assert_eq!(
        check_proposal_for_local(&s("peer-3"), &s("key-3"), &previous, &proposed, &authority, None, Some(&join), 101),
        Err(MembershipRequestError::PendingJoinExpired)
    );
    let other_authority = PreviousAuthority { peer_id: s("peer-2"), public_key: s("key-2") };
    assert_eq!(
        check_proposal_for_local(&s("peer-3"), &s("key-3"), &previous, &proposed, &other_authority, None, Some(&join), 0),
        Err(MembershipRequestError::ProposalNotStagedJoin)
    );
}

#[test]
fn certificates_apply_only_over_their_own_configurations() {
    let unrelated = CommittedAgainstCertificate { is_proposed: false, is_previous: false };
    assert_eq!(
        check_certificate_for_local(Some(&unrelated), Ok(()), None),
        Err(MembershipRequestError::CertificateNotExtending)
    );
    let previous = CommittedAgainstCertificate { is_proposed: false, is_previous: true };
    assert!(check_certificate_for_local(Some(&previous), Ok(()), Some(true)).is_ok());
    assert_eq!(
        check_certificate_for_local(Some(&previous), Ok(()), Some(false)),
        Err(MembershipRequestError::CertificateConflictsPrepare)
    );
    assert_eq!(
        check_certificate_for_local(None, Err(MembershipRequestError::NotVoter), None),
        Err(MembershipRequestError::NotVoter)
    );
    assert_eq!(stored_certificate_step(Some((true, 1, 1)), (1, 1)), StoredCertificateStep::ClearPrepare);
    assert_eq!(stored_certificate_step(Some((false, 2, 0)), (1, 5)), StoredCertificateStep::Superseded);
    assert_eq!(stored_certificate_step(Some((false, 1, 6)), (1, 5)), StoredCertificateStep::Superseded);
    assert_eq!(stored_certificate_step(Some((false, 1, 4)), (1, 5)), StoredCertificateStep::Apply);
    assert_eq!(stored_certificate_step(None, (1, 5)), StoredCertificateStep::Apply);
}

#[test]
fn transitions_reach_every_other_member_once() {
    let previous = vec![member(1, false), member(2, true), member(3, false)];
    let proposed = vec![member(1, false), member(2, false), member(3, false), member(4, false)];
    assert_eq!(transition_recipients(&previous, &proposed, &s("peer-1"), true), vec![s("peer-3"), s("peer-2"), s("peer-4")]);
    assert_eq!(transition_recipients(&previous, &proposed, &s("peer-1"), false), vec![s("peer-2"), s("peer-3"), s("peer-4")]);
}

#[test]
fn pending_join_clears_once_the_peer_is_an_unbanned_member_with_its_key() {
    let members = vec![member(1, false), member(2, true)];
    assert!(pending_join_satisfied(&members, &s("peer-1"), &s("key-1")));
    assert!(!pending_join_satisfied(&members, &s("peer-1"), &s("key-9")));
    assert!(!pending_join_satisfied(&members, &s("peer-2"), &s("key-2")));
    assert!(!pending_join_satisfied(&members, &s("peer-3"), &s("key-3")));
}

#[test]
fn pending_leave_clears_once_the_peer_is_no_longer_listed() {
    let members = vec![member(1, false), member(2, true)];
    assert!(!pending_leave_satisfied(&members, &s("peer-2")));
    assert!(pending_leave_satisfied(&members, &s("peer-3")));
}
