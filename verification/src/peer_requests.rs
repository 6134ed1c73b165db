//! What a peer decides when another peer sends it an epoch, a certified
//! recovery epoch, a lease, a sleep record, a recovery ballot or a
//! membership record for a world: refuse it, acknowledge it as already
//! accepted, or store it. Signatures, record hashes and storage are the
//! caller's, as are the membership checks of `authorization`.
use vstd::prelude::*;
use crate::authorization::{find_member, member_position, MemberEntry};
use crate::host_readiness::EpochMode;
use crate::migration::AuthorityGeneration;

verus! {

/// The length of an authority lease, in milliseconds.
pub const AUTHORITY_LEASE_DURATION_MS: u64 = 5_000;

/// How long after a lease expires recovery may begin, in nanoseconds.
pub const RECOVERY_SETTLE_DELAY_NANOS: u64 = 2_000_000_000;

/// Why a peer refuses a request.
#[derive(Debug, Clone, Copy, PartialEq, Eq, Structural)]
pub enum RequestRejection {
    RecoveryNeedsQuorum,
    GenerationExhausted,
    EpochNotNext,
    EpochOlderThanSnapshot,
    RecoveryEpochNotNext,
    RecoveryEpochStale,
    RecoveryEpochConflicts,
    LeaseSenderMismatch,
    LeaseAuthorityIneligible,
    LeaseDurationMismatch,
    LeaseGenerationMismatch,
    LeaseAuthorityMismatch,
    SleepSenderMismatch,
    SleepAuthorityIneligible,
    SleepGenerationMismatch,
    SleepWithoutSnapshot,
    SleepWrongSnapshot,
    BallotSenderMismatch,
    CandidateNotMember,
    CandidateIneligible,
    BallotNotNext,
    AuthorityConnected,
    LeaseNotExpired,
    BallotWithoutBase,
    BallotBaseMismatch,
    BallotMembershipStale,
    MembershipAheadOfEpoch,
    MembershipAuthorityMismatch,
    VoterSetChange,
    MembershipNotNext,
    MembershipStale,
    MembershipNotGenesis,
    MembershipSequenceExhausted,
}

pub open spec fn rejection_text(e: RequestRejection) -> Seq<char> {
    match e {
        RequestRejection::RecoveryNeedsQuorum => "recovery epoch requires a durable quorum certificate"@,
        RequestRejection::GenerationExhausted => "accepted authority generation is exhausted"@,
        RequestRejection::EpochNotNext => "epoch and fencing token must advance exactly once from the accepted epoch"@,
        RequestRejection::EpochOlderThanSnapshot => "epoch record is older than the local canonical snapshot"@,
        RequestRejection::RecoveryEpochNotNext => "certified recovery epoch does not directly extend the accepted epoch"@,
        RequestRejection::RecoveryEpochStale =>
            "certified recovery epoch is stale relative to a newer durable promise"@,
        RequestRejection::RecoveryEpochConflicts =>
            "certified recovery epoch conflicts with this peer's durable same-round promise"@,
        RequestRejection::LeaseSenderMismatch => "lease sender is not the signed authority"@,
        RequestRejection::LeaseAuthorityIneligible => "lease authority is not eligible or key does not match membership"@,
        RequestRejection::LeaseDurationMismatch => "lease duration does not match the authority policy"@,
        RequestRejection::LeaseGenerationMismatch =>
            "future authority generations require a recovery ballot, not a lease reservation"@,
        RequestRejection::LeaseAuthorityMismatch => "lease does not match the accepted authority epoch"@,
        RequestRejection::SleepSenderMismatch => "sleep sender is not the signed authority"@,
        RequestRejection::SleepAuthorityIneligible => "sleep authority is not eligible or key does not match membership"@,
        RequestRejection::SleepGenerationMismatch => "sleep record does not match the accepted authority generation"@,
        RequestRejection::SleepWithoutSnapshot => "cannot sleep a world without a snapshot"@,
        RequestRejection::SleepWrongSnapshot => "sleep record does not reference the exact latest snapshot"@,
        RequestRejection::BallotSenderMismatch => "recovery ballot sender is not the signed candidate"@,
        RequestRejection::CandidateNotMember => "recovery candidate is not a member"@,
        RequestRejection::CandidateIneligible =>
            "recovery candidate is not authority eligible or its key does not match membership"@,
        RequestRejection::BallotNotNext => "recovery ballot does not target the next accepted generation"@,
        RequestRejection::AuthorityConnected => "cannot vote for recovery while the accepted authority is connected"@,
        RequestRejection::LeaseNotExpired => "cannot vote for recovery before the accepted authority lease expires"@,
        RequestRejection::BallotWithoutBase => "recovery ballot has no canonical base snapshot"@,
        RequestRejection::BallotBaseMismatch =>
            "recovery ballot canonical base does not match the latest verified snapshot"@,
        RequestRejection::BallotMembershipStale => "recovery ballot membership hash is stale"@,
        RequestRejection::MembershipAheadOfEpoch => "membership cannot advance before its authority epoch is accepted"@,
        RequestRejection::MembershipAuthorityMismatch => "membership authority does not match the accepted epoch"@,
        RequestRejection::VoterSetChange => "membership voter-set changes require a joint membership certificate"@,
        RequestRejection::MembershipNotNext =>
            "same-voter membership record must directly extend the committed membership"@,
        RequestRejection::MembershipStale => "stale membership record rejected"@,
        RequestRejection::MembershipNotGenesis => "non-genesis membership requires a joint membership certificate"@,
        RequestRejection::MembershipSequenceExhausted => "membership sequence counter exhausted"@,
    }
}

impl RequestRejection {
    /// The rejection's text.
    pub fn message(&self) -> (r: &'static str)
        ensures
            r@ == rejection_text(*self),
    {
        match self {
            RequestRejection::RecoveryNeedsQuorum => "recovery epoch requires a durable quorum certificate",
            RequestRejection::GenerationExhausted => "accepted authority generation is exhausted",
            RequestRejection::EpochNotNext => "epoch and fencing token must advance exactly once from the accepted epoch",
            RequestRejection::EpochOlderThanSnapshot => "epoch record is older than the local canonical snapshot",
            RequestRejection::RecoveryEpochNotNext =>
                "certified recovery epoch does not directly extend the accepted epoch",
            RequestRejection::RecoveryEpochStale =>
                "certified recovery epoch is stale relative to a newer durable promise",
            RequestRejection::RecoveryEpochConflicts =>
                "certified recovery epoch conflicts with this peer's durable same-round promise",
            RequestRejection::LeaseSenderMismatch => "lease sender is not the signed authority",
            RequestRejection::LeaseAuthorityIneligible =>
                "lease authority is not eligible or key does not match membership",
            RequestRejection::LeaseDurationMismatch => "lease duration does not match the authority policy",
            RequestRejection::LeaseGenerationMismatch =>
                "future authority generations require a recovery ballot, not a lease reservation",
            RequestRejection::LeaseAuthorityMismatch => "lease does not match the accepted authority epoch",
            RequestRejection::SleepSenderMismatch => "sleep sender is not the signed authority",
            RequestRejection::SleepAuthorityIneligible =>
                "sleep authority is not eligible or key does not match membership",
            RequestRejection::SleepGenerationMismatch =>
                "sleep record does not match the accepted authority generation",
            RequestRejection::SleepWithoutSnapshot => "cannot sleep a world without a snapshot",
            RequestRejection::SleepWrongSnapshot => "sleep record does not reference the exact latest snapshot",
            RequestRejection::BallotSenderMismatch => "recovery ballot sender is not the signed candidate",
            RequestRejection::CandidateNotMember => "recovery candidate is not a member",
            RequestRejection::CandidateIneligible =>
                "recovery candidate is not authority eligible or its key does not match membership",
            RequestRejection::BallotNotNext => "recovery ballot does not target the next accepted generation",
            RequestRejection::AuthorityConnected =>
                "cannot vote for recovery while the accepted authority is connected",
            RequestRejection::LeaseNotExpired =>
                "cannot vote for recovery before the accepted authority lease expires",
            RequestRejection::BallotWithoutBase => "recovery ballot has no canonical base snapshot",
            RequestRejection::BallotBaseMismatch =>
                "recovery ballot canonical base does not match the latest verified snapshot",
            RequestRejection::BallotMembershipStale => "recovery ballot membership hash is stale",
            RequestRejection::MembershipAheadOfEpoch =>
                "membership cannot advance before its authority epoch is accepted",
            RequestRejection::MembershipAuthorityMismatch => "membership authority does not match the accepted epoch",
            RequestRejection::VoterSetChange => "membership voter-set changes require a joint membership certificate",
            RequestRejection::MembershipNotNext =>
                "same-voter membership record must directly extend the committed membership",
            RequestRejection::MembershipStale => "stale membership record rejected",
            RequestRejection::MembershipNotGenesis => "non-genesis membership requires a joint membership certificate",
            RequestRejection::MembershipSequenceExhausted => "membership sequence counter exhausted",
        }
    }
}

/// What to do with a record that passed every check.
#[derive(Debug, Clone, Copy, PartialEq, Eq, Structural)]
pub enum Acceptance {
    /// It is the record already accepted: acknowledge it and store nothing.
    AlreadyAccepted,
    /// Store it and acknowledge it.
    Store,
}

/// The accepted epoch record as the decisions read it: its generation,
/// whether the received record is identical to it, and its hash.
pub struct AcceptedEpoch {
    pub epoch_number: u64,
    pub fencing_token: u64,
    pub identical: bool,
    pub record_hash: String,
}

/// A received record directly extends the accepted one: it names the next
/// generation (both counters one on) and the accepted record's hash as its
/// predecessor.
pub open spec fn extends(current: AcceptedEpoch, epoch: u64, fencing_token: u64, previous: Option<Seq<char>>) -> bool {
    &&& epoch == current.epoch_number + 1
    &&& fencing_token == current.fencing_token + 1
    &&& previous == Some(current.record_hash@)
}

pub open spec fn opt_text(value: Option<&String>) -> Option<Seq<char>> {
    match value {
        Some(s) => Some(s@),
        None => None,
    }
}

// ---------------------------------------------------------------------------
// Epochs
// ---------------------------------------------------------------------------

/// A plain epoch message never carries a recovery epoch.
pub fn check_plain_epoch(record: &AuthorityGeneration) -> (r: Result<(), RequestRejection>)
    ensures
        r is Ok <==> record.mode != EpochMode::Recovery,
        r is Err ==> r == Err::<(), RequestRejection>(RequestRejection::RecoveryNeedsQuorum),
{
    if record.mode == EpochMode::Recovery {
        Err(RequestRejection::RecoveryNeedsQuorum)
    } else {
        Ok(())
    }
}

/// What a plain epoch that passed the membership checks still needs: with
/// an accepted epoch, it is that epoch again, or its direct successor (and
/// the transition checks then apply); without one, it is not older than the
/// latest local snapshot and has a fencing token.
pub open spec fn epoch_acceptance(
    epoch: u64,
    fencing_token: u64,
    previous: Option<Seq<char>>,
    current: Option<AcceptedEpoch>,
    latest_snapshot_epoch: Option<u64>,
) -> Result<Acceptance, RequestRejection> {
    match current {
        Some(c) => if c.identical {
            Ok(Acceptance::AlreadyAccepted)
        } else if c.epoch_number == u64::MAX || c.fencing_token == u64::MAX {
            Err(RequestRejection::GenerationExhausted)
        } else if !extends(c, epoch, fencing_token, previous) {
            Err(RequestRejection::EpochNotNext)
        } else {
            Ok(Acceptance::Store)
        },
        None => match latest_snapshot_epoch {
            Some(e) => if epoch < e || fencing_token == 0 {
                Err(RequestRejection::EpochOlderThanSnapshot)
            } else {
                Ok(Acceptance::Store)
            },
            None => Ok(Acceptance::Store),
        },
    }
}

/// Decides on a plain epoch record; where an accepted epoch exists and the
/// answer is to store, the transition checks of `authorization` follow.
pub fn accept_epoch(
    epoch: u64,
    fencing_token: u64,
    previous: Option<&String>,
    current: Option<&AcceptedEpoch>,
    latest_snapshot_epoch: Option<u64>,
) -> (r: Result<Acceptance, RequestRejection>)
    ensures
        r == epoch_acceptance(
            epoch,
            fencing_token,
            opt_text(previous),
            match current {
                Some(c) => Some(*c),
                None => None,
            },
            latest_snapshot_epoch,
        ),
{
    match current {
        Some(c) => {
            if c.identical {
                return Ok(Acceptance::AlreadyAccepted);
            }
            if c.epoch_number == u64::MAX || c.fencing_token == u64::MAX {
                return Err(RequestRejection::GenerationExhausted);
            }
            let linked = match previous {
                Some(h) => *h == c.record_hash,
                None => false,
            };
            if epoch != c.epoch_number + 1 || fencing_token != c.fencing_token + 1 || !linked {
                return Err(RequestRejection::EpochNotNext);
            }
            Ok(Acceptance::Store)
        },
        None => match latest_snapshot_epoch {
            Some(e) => {
                if epoch < e || fencing_token == 0 {
                    Err(RequestRejection::EpochOlderThanSnapshot)
                } else {
                    Ok(Acceptance::Store)
                }
            },
            None => Ok(Acceptance::Store),
        },
    }
}

/// The durable recovery promise of this peer: its ballot round and whether
/// its ballot is the certificate's.
pub struct RecoveryPromise {
    pub round: u64,
    pub same_ballot: bool,
}

/// A certified recovery epoch that passed its certificate checks: where an
/// epoch is accepted, it is that epoch again or directly extends it; and it
/// is not older than this peer's durable promise, nor another ballot of the
/// same round.
pub open spec fn recovery_epoch_acceptance(
    epoch: u64,
    fencing_token: u64,
    previous: Option<Seq<char>>,
    current: Option<AcceptedEpoch>,
    promise: Option<RecoveryPromise>,
    certificate_round: u64,
) -> Result<Acceptance, RequestRejection> {
    let extension = match current {
        Some(c) => if c.identical {
            Ok(Acceptance::AlreadyAccepted)
        } else if c.epoch_number == u64::MAX || c.fencing_token == u64::MAX {
            Err(RequestRejection::GenerationExhausted)
        } else if !extends(c, epoch, fencing_token, previous) {
            Err(RequestRejection::RecoveryEpochNotNext)
        } else {
            Ok(Acceptance::Store)
        },
        None => Ok(Acceptance::Store),
    };
    match extension {
        Ok(Acceptance::Store) => match promise {
            Some(p) => if p.round > certificate_round {
                Err(RequestRejection::RecoveryEpochStale)
            } else if p.round == certificate_round && !p.same_ballot {
                Err(RequestRejection::RecoveryEpochConflicts)
            } else {
                Ok(Acceptance::Store)
            },
            None => Ok(Acceptance::Store),
        },
        other => other,
    }
}

/// Decides on a certified recovery epoch.
pub fn accept_recovery_epoch(
    epoch: u64,
    fencing_token: u64,
    previous: Option<&String>,
    current: Option<&AcceptedEpoch>,
    promise: Option<&RecoveryPromise>,
    certificate_round: u64,
) -> (r: Result<Acceptance, RequestRejection>)
    ensures
        r == recovery_epoch_acceptance(
            epoch,
            fencing_token,
            opt_text(previous),
            match current {
                Some(c) => Some(*c),
                None => None,
            },
            match promise {
                Some(p) => Some(*p),
                None => None,
            },
            certificate_round,
        ),
{
    match current {
        Some(c) => {
            if c.identical {
                return Ok(Acceptance::AlreadyAccepted);
            }
            if c.epoch_number == u64::MAX || c.fencing_token == u64::MAX {
                return Err(RequestRejection::GenerationExhausted);
            }
            let linked = match previous {
                Some(h) => *h == c.record_hash,
                None => false,
            };
            if epoch != c.epoch_number + 1 || fencing_token != c.fencing_token + 1 || !linked {
                return Err(RequestRejection::RecoveryEpochNotNext);
            }
        },
        None => {},
    }
    match promise {
        Some(p) => {
            if p.round > certificate_round {
                Err(RequestRejection::RecoveryEpochStale)
            } else if p.round == certificate_round && !p.same_ballot {
                Err(RequestRejection::RecoveryEpochConflicts)
            } else {
                Ok(Acceptance::Store)
            }
        },
        None => Ok(Acceptance::Store),
    }
}

/// An accepted epoch only ever moves to its direct successor: storing a
/// received epoch over an accepted one that it is not identical to means
/// that both counters advance by exactly one and it names the accepted
/// record as its predecessor.
pub proof fn lemma_epochs_advance_one_step(
    epoch: u64,
    fencing_token: u64,
    previous: Option<Seq<char>>,
    current: AcceptedEpoch,
    latest_snapshot_epoch: Option<u64>,
    promise: Option<RecoveryPromise>,
    certificate_round: u64,
)
    ensures
        epoch_acceptance(epoch, fencing_token, previous, Some(current), latest_snapshot_epoch) == Ok::<
            Acceptance,
            RequestRejection,
        >(Acceptance::Store) ==> !current.identical && extends(current, epoch, fencing_token, previous),
        recovery_epoch_acceptance(epoch, fencing_token, previous, Some(current), promise, certificate_round) == Ok::<
            Acceptance,
            RequestRejection,
        >(Acceptance::Store) ==> !current.identical && extends(current, epoch, fencing_token, previous),
{
}

// ---------------------------------------------------------------------------
// Leases and sleep records
// ---------------------------------------------------------------------------

/// The authority's entry may hold authority with `key`.
pub open spec fn entry_allows(members: Seq<MemberEntry>, peer: Seq<char>, key: Seq<char>) -> bool {
    match find_member(members, peer, 0) {
        Some(i) => members[i].authority_eligible && !members[i].banned && members[i].public_key@ == key,
        None => false,
    }
}

fn entry_allows_exec(members: &[MemberEntry], peer: &String, key: &String) -> (r: bool)
    ensures
        r == entry_allows(members@, peer@, key@),
{
    match member_position(members, peer) {
        Some(i) => members[i].authority_eligible && !members[i].banned && members[i].public_key == *key,
        None => false,
    }
}

/// A lease is sent by the authority it names.
pub fn check_lease_sender(sender: &String, authority: &String) -> (r: Result<(), RequestRejection>)
    ensures
        r is Ok <==> sender@ == authority@,
        r is Err ==> r == Err::<(), RequestRejection>(RequestRejection::LeaseSenderMismatch),
{
    if *sender == *authority {
        Ok(())
    } else {
        Err(RequestRejection::LeaseSenderMismatch)
    }
}

pub open spec fn lease_check(
    members: Seq<MemberEntry>,
    authority: Seq<char>,
    authority_key: Seq<char>,
    duration_ms: u64,
    lease_epoch: u64,
    lease_fencing_token: u64,
    accepted: AuthorityGeneration,
) -> Result<(), RequestRejection> {
    if !entry_allows(members, authority, authority_key) {
        Err(RequestRejection::LeaseAuthorityIneligible)
    } else if duration_ms != AUTHORITY_LEASE_DURATION_MS {
        Err(RequestRejection::LeaseDurationMismatch)
    } else if lease_epoch != accepted.epoch_number || lease_fencing_token != accepted.fencing_token {
        Err(RequestRejection::LeaseGenerationMismatch)
    } else if authority != accepted.authority_peer_id@ || authority_key != accepted.authority_public_key@ {
        Err(RequestRejection::LeaseAuthorityMismatch)
    } else {
        Ok(())
    }
}

/// A lease from a member authority that passed the membership check: the
/// authority may hold the world with the lease's key, the lease has the
/// policy's length, and it is for the accepted generation and authority; a
/// later generation needs a recovery ballot instead.
pub fn check_lease(
    members: &[MemberEntry],
    authority: &String,
    authority_key: &String,
    duration_ms: u64,
    lease_epoch: u64,
    lease_fencing_token: u64,
    accepted: &AuthorityGeneration,
) -> (r: Result<(), RequestRejection>)
    ensures
        r == lease_check(
            members@,
            authority@,
            authority_key@,
            duration_ms,
            lease_epoch,
            lease_fencing_token,
            *accepted,
        ),
{
    if !entry_allows_exec(members, authority, authority_key) {
        return Err(RequestRejection::LeaseAuthorityIneligible);
    }
    if duration_ms != AUTHORITY_LEASE_DURATION_MS {
        return Err(RequestRejection::LeaseDurationMismatch);
    }
    if lease_epoch != accepted.epoch_number || lease_fencing_token != accepted.fencing_token {
        return Err(RequestRejection::LeaseGenerationMismatch);
    }
    if !(*authority == accepted.authority_peer_id) || !(*authority_key == accepted.authority_public_key) {
        return Err(RequestRejection::LeaseAuthorityMismatch);
    }
    Ok(())
}

/// A sleep record is sent by the authority it names.
pub fn check_sleep_sender(sender: &String, authority: &String) -> (r: Result<(), RequestRejection>)
    ensures
        r is Ok <==> sender@ == authority@,
        r is Err ==> r == Err::<(), RequestRejection>(RequestRejection::SleepSenderMismatch),
{
    if *sender == *authority {
        Ok(())
    } else {
        Err(RequestRejection::SleepSenderMismatch)
    }
}

pub open spec fn sleep_check(
    members: Seq<MemberEntry>,
    authority: Seq<char>,
    authority_key: Seq<char>,
    epoch: u64,
    fencing_token: u64,
    accepted: AuthorityGeneration,
    latest_manifest_hash: Option<Seq<char>>,
    snapshot_hash: Seq<char>,
) -> Result<(), RequestRejection> {
    if !entry_allows(members, authority, authority_key) {
        Err(RequestRejection::SleepAuthorityIneligible)
    } else if epoch != accepted.epoch_number || fencing_token != accepted.fencing_token || authority
        != accepted.authority_peer_id@ {
        Err(RequestRejection::SleepGenerationMismatch)
    } else {
        match latest_manifest_hash {
            None => Err(RequestRejection::SleepWithoutSnapshot),
            Some(h) => if h != snapshot_hash {
                Err(RequestRejection::SleepWrongSnapshot)
            } else {
                Ok(())
            },
        }
    }
}

/// A sleep record from a member authority that passed the membership check:
/// the authority may hold the world with the record's key, the record is
/// for the accepted generation and authority, and it names the latest
/// snapshot.
pub fn check_sleep(
    members: &[MemberEntry],
    authority: &String,
    authority_key: &String,
    epoch: u64,
    fencing_token: u64,
    accepted: &AuthorityGeneration,
    latest_manifest_hash: Option<&String>,
    snapshot_hash: &String,
) -> (r: Result<(), RequestRejection>)
    ensures
        r == sleep_check(
            members@,
            authority@,
            authority_key@,
            epoch,
            fencing_token,
            *accepted,
            opt_text(latest_manifest_hash),
            snapshot_hash@,
        ),
{
    if !entry_allows_exec(members, authority, authority_key) {
        return Err(RequestRejection::SleepAuthorityIneligible);
    }
    if epoch != accepted.epoch_number || fencing_token != accepted.fencing_token || !(*authority
        == accepted.authority_peer_id) {
        return Err(RequestRejection::SleepGenerationMismatch);
    }
    match latest_manifest_hash {
        None => Err(RequestRejection::SleepWithoutSnapshot),
        Some(h) => {
            if !(*h == *snapshot_hash) {
                Err(RequestRejection::SleepWrongSnapshot)
            } else {
                Ok(())
            }
        },
    }
}

// ---------------------------------------------------------------------------
// Recovery ballots
// ---------------------------------------------------------------------------

/// The lease this peer holds from the accepted authority: its generation and
/// when it expires, in nanoseconds on a monotonic clock.
pub struct InboundLease {
    pub epoch: u64,
    pub fencing_token: u64,
    pub expires_at: u64,
}

/// Recovery may begin for generation (`epoch`, `fencing_token`): never while
/// a lease of a later generation is held; with a lease of this generation,
/// once the settle delay has passed after it expired; otherwise once the
/// recorded earliest recovery time has come.
pub open spec fn recovery_window_spec(
    lease: Option<InboundLease>,
    not_before: Option<u64>,
    epoch: u64,
    fencing_token: u64,
    now: u64,
) -> bool {
    match lease {
        Some(l) if l.epoch > epoch || (l.epoch == epoch && l.fencing_token > fencing_token) => false,
        Some(l) if l.epoch == epoch && l.fencing_token == fencing_token => now >= l.expires_at
            + RECOVERY_SETTLE_DELAY_NANOS,
        _ => match not_before {
            Some(deadline) => now >= deadline,
            None => false,
        },
    }
}

/// Whether this peer may vote for recovery of a generation now.
pub fn recovery_window_open(
    lease: Option<&InboundLease>,
    not_before: Option<u64>,
    epoch: u64,
    fencing_token: u64,
    now: u64,
) -> (r: bool)
    ensures
        r == recovery_window_spec(
            match lease {
                Some(l) => Some(*l),
                None => None,
            },
            not_before,
            epoch,
            fencing_token,
            now,
        ),
{
    match lease {
        Some(l) => {
            if l.epoch > epoch || (l.epoch == epoch && l.fencing_token > fencing_token) {
                return false;
            }
            if l.epoch == epoch && l.fencing_token == fencing_token {
                return now >= l.expires_at && now - l.expires_at >= RECOVERY_SETTLE_DELAY_NANOS;
            }
        },
        None => {},
    }
    match not_before {
        Some(deadline) => now >= deadline,
        None => false,
    }
}

/// A recovery ballot is sent by the candidate it names.
pub fn check_ballot_sender(sender: &String, candidate: &String) -> (r: Result<(), RequestRejection>)
    ensures
        r is Ok <==> sender@ == candidate@,
        r is Err ==> r == Err::<(), RequestRejection>(RequestRejection::BallotSenderMismatch),
{
    if *sender == *candidate {
        Ok(())
    } else {
        Err(RequestRejection::BallotSenderMismatch)
    }
}

/// What a recovery ballot says, as the vote decision reads it.
pub struct BallotFacts {
    pub candidate_peer_id: String,
    pub candidate_public_key: String,
    pub base_epoch: u64,
    pub base_fencing_token: u64,
    pub target_epoch: u64,
    pub target_fencing_token: u64,
    pub base_snapshot_hash: String,
    pub base_state_hash: String,
    pub membership_hash: String,
}

pub open spec fn ballot_vote_check(
    members: Seq<MemberEntry>,
    ballot: BallotFacts,
    accepted: AuthorityGeneration,
    authority_connected: bool,
    window_open: bool,
    latest: Option<(Seq<char>, Seq<char>)>,
    membership_hash: Seq<char>,
) -> Result<(), RequestRejection> {
    match find_member(members, ballot.candidate_peer_id@, 0) {
        None => Err(RequestRejection::CandidateNotMember),
        Some(i) => if members[i].banned || !members[i].authority_eligible || members[i].public_key@
            != ballot.candidate_public_key@ {
            Err(RequestRejection::CandidateIneligible)
        } else if accepted.epoch_number == u64::MAX || accepted.fencing_token == u64::MAX {
            Err(RequestRejection::GenerationExhausted)
        } else if ballot.base_epoch != accepted.epoch_number || ballot.base_fencing_token != accepted.fencing_token
            || ballot.target_epoch != accepted.epoch_number + 1 || ballot.target_fencing_token
            != accepted.fencing_token + 1 {
            Err(RequestRejection::BallotNotNext)
        } else if authority_connected {
            Err(RequestRejection::AuthorityConnected)
        } else if !window_open {
            Err(RequestRejection::LeaseNotExpired)
        } else {
            match latest {
                None => Err(RequestRejection::BallotWithoutBase),
                Some((manifest_hash, state_root)) => if manifest_hash != ballot.base_snapshot_hash@ || state_root
                    != ballot.base_state_hash@ {
                    Err(RequestRejection::BallotBaseMismatch)
                } else if membership_hash != ballot.membership_hash@ {
                    Err(RequestRejection::BallotMembershipStale)
                } else {
                    Ok(())
                },
            }
        },
    }
}

/// A vote for a recovery ballot is given only where the ballot's base
/// snapshot and state are this peer's latest verified snapshot and its
/// membership is this peer's; the ballot moves from the accepted generation
/// to the very next one; the accepted authority is gone and its lease
/// window closed; and the candidate is an unbanned, authority-eligible
/// member holding the ballot's key.
pub proof fn lemma_vote_only_on_the_latest_base(
    members: Seq<MemberEntry>,
    ballot: BallotFacts,
    accepted: AuthorityGeneration,
    authority_connected: bool,
    window_open: bool,
    latest: Option<(Seq<char>, Seq<char>)>,
    membership_hash: Seq<char>,
)
    requires
        ballot_vote_check(members, ballot, accepted, authority_connected, window_open, latest, membership_hash) is Ok,
    ensures
        latest is Some,
        latest->Some_0.0 == ballot.base_snapshot_hash@,
        latest->Some_0.1 == ballot.base_state_hash@,
        membership_hash == ballot.membership_hash@,
        !authority_connected && window_open,
        ballot.base_epoch == accepted.epoch_number && ballot.base_fencing_token == accepted.fencing_token,
        ballot.target_epoch == accepted.epoch_number + 1 && ballot.target_fencing_token == accepted.fencing_token + 1,
        exists|i: int|
            0 <= i < members.len() && (#[trigger] members[i]).peer_id@ == ballot.candidate_peer_id@ && !members[i].banned
                && members[i].authority_eligible && members[i].public_key@ == ballot.candidate_public_key@,
{
    crate::authorization::lemma_find_member_bounds(members, ballot.candidate_peer_id@, 0);
    let i = find_member(members, ballot.candidate_peer_id@, 0)->Some_0;
    assert(members[i].peer_id@ == ballot.candidate_peer_id@);
}

/// Whether this peer may vote for a signed recovery ballot: the candidate
/// may hold authority with the ballot's key; the ballot starts from the
/// accepted generation and targets the one right after it; the accepted
/// authority is not connected and its lease window has closed; and the
/// ballot's base snapshot, state and membership are the local ones.
pub fn check_ballot_vote(
    members: &[MemberEntry],
    ballot: &BallotFacts,
    accepted: &AuthorityGeneration,
    authority_connected: bool,
    window_open: bool,
    latest: Option<(&String, &String)>,
    membership_hash: &String,
) -> (r: Result<(), RequestRejection>)
    ensures
        r == ballot_vote_check(
            members@,
            *ballot,
            *accepted,
            authority_connected,
            window_open,
            match latest {
                Some((m, s)) => Some((m@, s@)),
                None => None,
            },
            membership_hash@,
        ),
{
    let i = match member_position(members, &ballot.candidate_peer_id) {
        None => return Err(RequestRejection::CandidateNotMember),
        Some(i) => i,
    };
    if members[i].banned || !members[i].authority_eligible || !(members[i].public_key == ballot.candidate_public_key) {
        return Err(RequestRejection::CandidateIneligible);
    }
    if accepted.epoch_number == u64::MAX || accepted.fencing_token == u64::MAX {
        return Err(RequestRejection::GenerationExhausted);
    }
    if ballot.base_epoch != accepted.epoch_number || ballot.base_fencing_token != accepted.fencing_token
        || ballot.target_epoch != accepted.epoch_number + 1 || ballot.target_fencing_token != accepted.fencing_token
        + 1 {
        return Err(RequestRejection::BallotNotNext);
    }
    if authority_connected {
        return Err(RequestRejection::AuthorityConnected);
    }
    if !window_open {
        return Err(RequestRejection::LeaseNotExpired);
    }
    match latest {
        None => Err(RequestRejection::BallotWithoutBase),
        Some((manifest_hash, state_root)) => {
            if !(*manifest_hash == ballot.base_snapshot_hash) || !(*state_root == ballot.base_state_hash) {
                Err(RequestRejection::BallotBaseMismatch)
            } else if !(*membership_hash == ballot.membership_hash) {
                Err(RequestRejection::BallotMembershipStale)
            } else {
                Ok(())
            }
        },
    }
}

/// The larger of two optional rounds, zero where neither is known.
pub open spec fn round_floor_spec(learnt: Option<u64>, durable: Option<u64>) -> u64 {
    match (learnt, durable) {
        (Some(a), Some(b)) => if a >= b {
            a
        } else {
            b
        },
        (Some(a), None) => a,
        (None, Some(b)) => b,
        (None, None) => 0,
    }
}

/// The lowest round a new ballot of this peer may use: at least the floor
/// learnt from rejections and the round of its own durable promise.
pub fn recovery_round_floor(learnt: Option<u64>, durable: Option<u64>) -> (r: u64)
    ensures
        r == round_floor_spec(learnt, durable),
{
    let a = match learnt {
        Some(v) => v,
        None => 0,
    };
    let b = match durable {
        Some(v) => v,
        None => 0,
    };
    if a >= b {
        a
    } else {
        b
    }
}

/// The active ballot may be sent again: it is the ballot this peer would
/// make now (same generations, candidate, base and membership) and its
/// round is not below the floor.
pub open spec fn ballot_usable_spec(active: BallotFacts, round: u64, wanted: BallotFacts, floor: u64) -> bool {
    &&& active.base_epoch == wanted.base_epoch
    &&& active.base_fencing_token == wanted.base_fencing_token
    &&& active.target_epoch == wanted.target_epoch
    &&& active.target_fencing_token == wanted.target_fencing_token
    &&& active.candidate_peer_id@ == wanted.candidate_peer_id@
    &&& active.base_snapshot_hash@ == wanted.base_snapshot_hash@
    &&& active.base_state_hash@ == wanted.base_state_hash@
    &&& active.membership_hash@ == wanted.membership_hash@
    &&& round >= floor
}

/// Whether the active ballot (with its round) can be kept rather than
/// replaced by a new one.
pub fn ballot_usable(active: &BallotFacts, round: u64, wanted: &BallotFacts, floor: u64) -> (r: bool)
    ensures
        r == ballot_usable_spec(*active, round, *wanted, floor),
{
    active.base_epoch == wanted.base_epoch && active.base_fencing_token == wanted.base_fencing_token
        && active.target_epoch == wanted.target_epoch && active.target_fencing_token == wanted.target_fencing_token
        && active.candidate_peer_id == wanted.candidate_peer_id && active.base_snapshot_hash
        == wanted.base_snapshot_hash && active.base_state_hash == wanted.base_state_hash && active.membership_hash
        == wanted.membership_hash && round >= floor
}

/// The round of a new ballot: one above the floor; `None` where the round
/// counter is exhausted.
pub fn next_recovery_round(floor: u64) -> (r: Option<u64>)
    ensures
        floor == u64::MAX ==> r is None,
        floor < u64::MAX ==> r == Some((floor + 1) as u64),
{
    if floor == u64::MAX {
        None
    } else {
        Some(floor + 1)
    }
}

/// The learnt floor and whether the active ballot is dropped after a
/// rejection that reports `highest_round` (`active` is the round of the
/// active ballot where the rejection is for it).
pub open spec fn rejection_spec(active: Option<u64>, learnt: Option<u64>, highest_round: u64) -> (Option<u64>, bool) {
    let active_round = match active {
        Some(a) => a,
        None => 0,
    };
    if highest_round >= active_round {
        (Some(round_floor_spec(learnt, Some(highest_round))), true)
    } else {
        (learnt, false)
    }
}

/// After a peer rejects this peer's ballot, reporting the highest round it
/// promised: where that round is not below the active ballot's, the learnt
/// floor rises to it and the ballot and its votes are dropped.
pub fn after_rejection(active: Option<u64>, learnt: Option<u64>, highest_round: u64) -> (r: (Option<u64>, bool))
    ensures
        r == rejection_spec(active, learnt, highest_round),
{
    let active_round = match active {
        Some(a) => a,
        None => 0,
    };
    if highest_round >= active_round {
        (Some(recovery_round_floor(learnt, Some(highest_round))), true)
    } else {
        (learnt, false)
    }
}

/// Recovery rounds only move forward: a rejection never lowers the learnt
/// floor and, where it drops the ballot, raises the floor to the rejected
/// round; and the floor covers both the learnt round and the durable
/// promise, so a new ballot (one round above it) is newer than both.
pub proof fn lemma_recovery_rounds_only_advance(
    active: Option<u64>,
    learnt: Option<u64>,
    durable: Option<u64>,
    highest_round: u64,
)
    ensures
        learnt matches Some(f) ==> (rejection_spec(active, learnt, highest_round).0 matches Some(g) && g >= f),
        rejection_spec(active, learnt, highest_round).1 ==> (rejection_spec(active, learnt, highest_round).0 matches Some(
            g,
        ) && g >= highest_round),
        learnt matches Some(f) ==> round_floor_spec(learnt, durable) >= f,
        durable matches Some(d) ==> round_floor_spec(learnt, durable) >= d,
{
}

// ---------------------------------------------------------------------------
// Membership records
// ---------------------------------------------------------------------------

/// The committed membership record as the decision reads it: whether the
/// received record is identical to it, whether it lists the same members,
/// and its hash, sequence and epoch.
pub struct CommittedMembership {
    pub identical: bool,
    pub same_members: bool,
    pub record_hash: String,
    pub sequence: u64,
    pub epoch: u64,
}

pub open spec fn membership_acceptance(
    record_epoch: u64,
    record_sequence: u64,
    record_authority: Seq<char>,
    record_key: Seq<char>,
    previous: Option<Seq<char>>,
    accepted: Option<AuthorityGeneration>,
    committed: Option<CommittedMembership>,
) -> Result<Acceptance, RequestRejection> {
    let epoch_ok = match accepted {
        Some(e) => if record_epoch > e.epoch_number {
            Err(RequestRejection::MembershipAheadOfEpoch)
        } else if record_epoch == e.epoch_number && (record_authority != e.authority_peer_id@ || record_key
            != e.authority_public_key@) {
            Err(RequestRejection::MembershipAuthorityMismatch)
        } else {
            Ok(())
        },
        None => Ok(()),
    };
    match epoch_ok {
        Err(e) => Err(e),
        Ok(_) => match committed {
            Some(c) => if c.identical {
                Ok(Acceptance::AlreadyAccepted)
            } else if !c.same_members {
                Err(RequestRejection::VoterSetChange)
            } else if c.sequence == u64::MAX && previous == Some(c.record_hash@) {
                Err(RequestRejection::MembershipSequenceExhausted)
            } else if previous != Some(c.record_hash@) || record_sequence != c.sequence + 1 {
                Err(RequestRejection::MembershipNotNext)
            } else if record_epoch < c.epoch {
                Err(RequestRejection::MembershipStale)
            } else {
                Ok(Acceptance::Store)
            },
            None => if record_sequence != 1 || previous is Some {
                Err(RequestRejection::MembershipNotGenesis)
            } else {
                Ok(Acceptance::Store)
            },
        },
    }
}

/// Decides on a signed membership record whose authority passed the
/// membership check: it does not run ahead of the accepted epoch nor name
/// another authority for it; against a committed record, it is that record
/// again, or keeps its members and directly extends it without going back
/// an epoch; without one, it is the first record.
pub fn accept_membership_record(
    record_epoch: u64,
    record_sequence: u64,
    record_authority: &String,
    record_key: &String,
    previous: Option<&String>,
    accepted: Option<&AuthorityGeneration>,
    committed: Option<&CommittedMembership>,
) -> (r: Result<Acceptance, RequestRejection>)
    ensures
        r == membership_acceptance(
            record_epoch,
            record_sequence,
            record_authority@,
            record_key@,
            opt_text(previous),
            match accepted {
                Some(e) => Some(*e),
                None => None,
            },
            match committed {
                Some(c) => Some(*c),
                None => None,
            },
        ),
{
    match accepted {
        Some(e) => {
            if record_epoch > e.epoch_number {
                return Err(RequestRejection::MembershipAheadOfEpoch);
            }
            if record_epoch == e.epoch_number && (!(*record_authority == e.authority_peer_id) || !(*record_key
                == e.authority_public_key)) {
                return Err(RequestRejection::MembershipAuthorityMismatch);
            }
        },
        None => {},
    }
    match committed {
        Some(c) => {
            if c.identical {
                return Ok(Acceptance::AlreadyAccepted);
            }
            if !c.same_members {
                return Err(RequestRejection::VoterSetChange);
            }
            let linked = match previous {
                Some(h) => *h == c.record_hash,
                None => false,
            };
            if c.sequence == u64::MAX && linked {
                return Err(RequestRejection::MembershipSequenceExhausted);
            }
            if !linked || c.sequence == u64::MAX || record_sequence != c.sequence + 1 {
                return Err(RequestRejection::MembershipNotNext);
            }
            if record_epoch < c.epoch {
                return Err(RequestRejection::MembershipStale);
            }
            Ok(Acceptance::Store)
        },
        None => {
            if record_sequence != 1 || previous.is_some() {
                Err(RequestRejection::MembershipNotGenesis)
            } else {
                Ok(Acceptance::Store)
            }
        },
    }
}

/// A plain epoch is stored only as the direct successor of the accepted
/// one (both counters one on, naming the accepted record), or, with no
/// accepted epoch, when it is not older than the latest local snapshot and
/// carries a fencing token.
pub proof fn lemma_stored_epoch_is_the_next(
    epoch: u64,
    fencing_token: u64,
    previous: Option<Seq<char>>,
    current: Option<AcceptedEpoch>,
    latest_snapshot_epoch: Option<u64>,
)
    requires
        epoch_acceptance(epoch, fencing_token, previous, current, latest_snapshot_epoch) == Ok::<
            Acceptance,
            RequestRejection,
        >(Acceptance::Store),
    ensures
        current matches Some(c) ==> !c.identical && epoch == c.epoch_number + 1 && fencing_token == c.fencing_token + 1
            && previous == Some(c.record_hash@),
        current is None && latest_snapshot_epoch is Some ==> epoch >= latest_snapshot_epoch->Some_0 && fencing_token
            > 0,
{
}

/// A certified recovery epoch is stored only as the direct successor of an
/// accepted epoch, and never against a durable promise of a later round or
/// of another ballot of its round.
pub proof fn lemma_stored_recovery_epoch_is_the_next(
    epoch: u64,
    fencing_token: u64,
    previous: Option<Seq<char>>,
    current: Option<AcceptedEpoch>,
    promise: Option<RecoveryPromise>,
    certificate_round: u64,
)
    requires
        recovery_epoch_acceptance(epoch, fencing_token, previous, current, promise, certificate_round) == Ok::<
            Acceptance,
            RequestRejection,
        >(Acceptance::Store),
    ensures
        current matches Some(c) ==> !c.identical && epoch == c.epoch_number + 1 && fencing_token == c.fencing_token + 1
            && previous == Some(c.record_hash@),
        promise matches Some(p) ==> p.round <= certificate_round && (p.round == certificate_round ==> p.same_ballot),
{
}

/// A lease is taken only from the accepted authority, with its key, for
/// the accepted generation, lasting exactly five seconds, where the
/// membership lets that peer hold authority with that key.
pub proof fn lemma_lease_only_from_the_accepted_authority(
    members: Seq<MemberEntry>,
    authority: Seq<char>,
    authority_key: Seq<char>,
    duration_ms: u64,
    lease_epoch: u64,
    lease_fencing_token: u64,
    accepted: AuthorityGeneration,
)
    requires
        lease_check(members, authority, authority_key, duration_ms, lease_epoch, lease_fencing_token, accepted) is Ok,
    ensures
        duration_ms == 5_000,
        lease_epoch == accepted.epoch_number && lease_fencing_token == accepted.fencing_token,
        authority == accepted.authority_peer_id@ && authority_key == accepted.authority_public_key@,
        exists|i: int|
            0 <= i < members.len() && (#[trigger] members[i]).peer_id@ == authority && !members[i].banned
                && members[i].authority_eligible && members[i].public_key@ == authority_key,
{
    crate::authorization::lemma_find_member_bounds(members, authority, 0);
    let i = find_member(members, authority, 0)->Some_0;
    assert(members[i].peer_id@ == authority);
}

/// A sleep record is taken only from the accepted authority of the accepted
/// generation, where the membership lets it hold authority with the record's
/// key, and only when it names this peer's latest snapshot.
pub proof fn lemma_sleep_only_on_the_latest_snapshot(
    members: Seq<MemberEntry>,
    authority: Seq<char>,
    authority_key: Seq<char>,
    epoch: u64,
    fencing_token: u64,
    accepted: AuthorityGeneration,
    latest_manifest_hash: Option<Seq<char>>,
    snapshot_hash: Seq<char>,
)
    requires
        sleep_check(members, authority, authority_key, epoch, fencing_token, accepted, latest_manifest_hash, snapshot_hash)
            is Ok,
    ensures
        epoch == accepted.epoch_number && fencing_token == accepted.fencing_token,
        authority == accepted.authority_peer_id@,
        latest_manifest_hash == Some(snapshot_hash),
        exists|i: int|
            0 <= i < members.len() && (#[trigger] members[i]).peer_id@ == authority && !members[i].banned
                && members[i].authority_eligible && members[i].public_key@ == authority_key,
{
    crate::authorization::lemma_find_member_bounds(members, authority, 0);
    let i = find_member(members, authority, 0)->Some_0;
    assert(members[i].peer_id@ == authority);
}

/// A membership record is stored only where it does not run ahead of the
/// accepted epoch nor name another authority for it, and either is the
/// first record (sequence one, no predecessor) or keeps the committed
/// members and directly extends the committed record without going back
/// an epoch.
pub proof fn lemma_stored_membership_extends_the_committed(
    record_epoch: u64,
    record_sequence: u64,
    record_authority: Seq<char>,
    record_key: Seq<char>,
    previous: Option<Seq<char>>,
    accepted: Option<AuthorityGeneration>,
    committed: Option<CommittedMembership>,
)
    requires
        membership_acceptance(record_epoch, record_sequence, record_authority, record_key, previous, accepted, committed)
            == Ok::<Acceptance, RequestRejection>(Acceptance::Store),
    ensures
        accepted matches Some(e) ==> record_epoch <= e.epoch_number && (record_epoch == e.epoch_number
            ==> record_authority == e.authority_peer_id@ && record_key == e.authority_public_key@),
        committed matches Some(c) ==> !c.identical && c.same_members && previous == Some(c.record_hash@)
            && record_sequence == c.sequence + 1 && record_epoch >= c.epoch,
        committed is None ==> record_sequence == 1 && previous is None,
{
}

} // verus!
