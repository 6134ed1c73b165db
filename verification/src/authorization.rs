//! The checks a peer applies before it accepts what another peer sends about
//! a world: who is a member, who may speak for the authority, and whether an
//! epoch, a snapshot, a transfer or a recovery ballot follows what is already
//! accepted locally. Signatures, hashing and storage are the caller's; each
//! function here is one decision between them, in the order it is taken.
use vstd::prelude::*;
use crate::host_readiness::{EpochMode, PeerStatus};
use crate::migration::{AuthorityGeneration, AuthorityTransfer, TransferPhase};

verus! {

/// A member of a world's membership descriptor, as the checks read it.
pub struct MemberEntry {
    pub peer_id: String,
    pub public_key: String,
    /// The peer id that `public_key` derives to.
    pub key_peer_id: String,
    pub authority_eligible: bool,
    pub banned: bool,
}

/// Why a peer refuses a message.
#[derive(Debug, Clone, Copy, PartialEq, Eq, Structural)]
pub enum PeerCheckError {
    NotMember,
    KeyMismatch,
    Banned,
    ConfigSenderMismatch,
    ConfigNotCurrentAuthority,
    ConfigNotBootstrapAuthority,
    SnapshotAuthorityNotMember,
    SnapshotAuthorityIneligible,
    SnapshotEpochMismatch,
    EpochAuthorityIneligible,
    EpochWithoutBase,
    EpochBaseMismatch,
    RecoveryNeedsCertificate,
    AuthorityKeyChanged,
    SoloDisabled,
    SoloWithSeveralMembers,
    TransferMissing,
    TransferMismatch,
    TransferSourceNotMember,
    TransferTargetNotMember,
    TransferParticipantsRejected,
    TransferWrongSigner,
    TransferSignerKeyMismatch,
    TransferWithoutSnapshot,
    TransferWrongSnapshot,
    GenerationExhausted,
    TransferGenerationMismatch,
    TransferDiscontinuous,
    TransferNotPrepared,
    NotRecoveryEpoch,
    BallotMismatch,
    RecoveryWithoutBase,
    RecoveryBaseMismatch,
    StaleMembership,
    TransferWorldMismatch,
    TransferSourceKeyMismatch,
    NoSourceEpoch,
    NoSourceFencingToken,
    TransferNotExtending,
    TransferPeerLacksSnapshot,
    TransferSnapshotMismatch,
}

/// The text of each refusal.
pub open spec fn check_error_text(e: PeerCheckError) -> Seq<char> {
    match e {
        PeerCheckError::NotMember => "peer is not an authorized member of this world"@,
        PeerCheckError::KeyMismatch => "world membership public key does not match peer identity"@,
        PeerCheckError::Banned => "peer is banned from this world"@,
        PeerCheckError::ConfigSenderMismatch => "world config sender does not match its signed authority"@,
        PeerCheckError::ConfigNotCurrentAuthority => "world config is not signed by the current accepted authority"@,
        PeerCheckError::ConfigNotBootstrapAuthority => "world config is not signed by the bootstrap authority"@,
        PeerCheckError::SnapshotAuthorityNotMember => "snapshot authority is not an authorized world member"@,
        PeerCheckError::SnapshotAuthorityIneligible => "snapshot authority is not eligible or public key does not match membership"@,
        PeerCheckError::SnapshotEpochMismatch => "snapshot does not belong to the accepted authority epoch"@,
        PeerCheckError::EpochAuthorityIneligible => "epoch authority is not eligible or key does not match membership"@,
        PeerCheckError::EpochWithoutBase => "cannot accept an authority epoch without a base snapshot"@,
        PeerCheckError::EpochBaseMismatch => "epoch base state hash does not match the latest verified snapshot"@,
        PeerCheckError::RecoveryNeedsCertificate => "recovery transition requires a quorum certificate"@,
        PeerCheckError::AuthorityKeyChanged => "same authority peer cannot change its canonical public key"@,
        PeerCheckError::SoloDisabled => "solo advancement is disabled by the signed world configuration"@,
        PeerCheckError::SoloWithSeveralMembers => "multi-member worlds cannot enter writable solo mode without a committed clean relinquishment"@,
        PeerCheckError::TransferMissing => "authority change requires a persisted authority transfer"@,
        PeerCheckError::TransferMismatch => "epoch authority change does not match the committed transfer"@,
        PeerCheckError::TransferSourceNotMember => "transfer source is not a world member"@,
        PeerCheckError::TransferTargetNotMember => "transfer target is not a world member"@,
        PeerCheckError::TransferParticipantsRejected => "transfer participants are banned or target is not authority eligible"@,
        PeerCheckError::TransferWrongSigner => "transfer phase was signed by the wrong participant"@,
        PeerCheckError::TransferSignerKeyMismatch => "transfer signer key does not match membership"@,
        PeerCheckError::TransferWithoutSnapshot => "cannot transfer authority without a snapshot"@,
        PeerCheckError::TransferWrongSnapshot => "transfer does not reference the exact latest snapshot"@,
        PeerCheckError::GenerationExhausted => "accepted authority generation is exhausted"@,
        PeerCheckError::TransferGenerationMismatch => "transfer generation does not advance the accepted epoch exactly once"@,
        PeerCheckError::TransferDiscontinuous => "authority transfer does not continue the persisted transfer state"@,
        PeerCheckError::TransferNotPrepared => "authority transfer must begin in the prepared phase"@,
        PeerCheckError::NotRecoveryEpoch => "recovery certificate attached to a non-recovery epoch"@,
        PeerCheckError::BallotMismatch => "recovery epoch does not match its signed ballot"@,
        PeerCheckError::RecoveryWithoutBase => "recovery epoch has no canonical base snapshot"@,
        PeerCheckError::RecoveryBaseMismatch => "recovery certificate canonical base does not match local verified history"@,
        PeerCheckError::StaleMembership => "recovery certificate membership hash is stale"@,
        PeerCheckError::TransferWorldMismatch => "transfer world does not match the accepted authority generation"@,
        PeerCheckError::TransferSourceKeyMismatch => "transfer source key does not match the accepted authority generation"@,
        PeerCheckError::NoSourceEpoch => "transfer successor epoch has no source generation"@,
        PeerCheckError::NoSourceFencingToken => "transfer successor fencing token has no source generation"@,
        PeerCheckError::TransferNotExtending => "transfer generation does not extend the accepted authority exactly once"@,
        PeerCheckError::TransferPeerLacksSnapshot => "transfer peer lacks the canonical snapshot"@,
        PeerCheckError::TransferSnapshotMismatch => "transfer token does not reference this peer's exact canonical snapshot"@,
    }
}

impl PeerCheckError {
    /// The error's text.
    pub fn message(&self) -> (r: &'static str)
        ensures
            r@ == check_error_text(*self),
    {
        match self {
            PeerCheckError::NotMember => "peer is not an authorized member of this world",
            PeerCheckError::KeyMismatch => "world membership public key does not match peer identity",
            PeerCheckError::Banned => "peer is banned from this world",
            PeerCheckError::ConfigSenderMismatch => "world config sender does not match its signed authority",
            PeerCheckError::ConfigNotCurrentAuthority => "world config is not signed by the current accepted authority",
            PeerCheckError::ConfigNotBootstrapAuthority => "world config is not signed by the bootstrap authority",
            PeerCheckError::SnapshotAuthorityNotMember => "snapshot authority is not an authorized world member",
            PeerCheckError::SnapshotAuthorityIneligible =>
                "snapshot authority is not eligible or public key does not match membership",
            PeerCheckError::SnapshotEpochMismatch => "snapshot does not belong to the accepted authority epoch",
            PeerCheckError::EpochAuthorityIneligible =>
                "epoch authority is not eligible or key does not match membership",
            PeerCheckError::EpochWithoutBase => "cannot accept an authority epoch without a base snapshot",
            PeerCheckError::EpochBaseMismatch => "epoch base state hash does not match the latest verified snapshot",
            PeerCheckError::RecoveryNeedsCertificate => "recovery transition requires a quorum certificate",
            PeerCheckError::AuthorityKeyChanged => "same authority peer cannot change its canonical public key",
            PeerCheckError::SoloDisabled => "solo advancement is disabled by the signed world configuration",
            PeerCheckError::SoloWithSeveralMembers =>
                "multi-member worlds cannot enter writable solo mode without a committed clean relinquishment",
            PeerCheckError::TransferMissing => "authority change requires a persisted authority transfer",
            PeerCheckError::TransferMismatch => "epoch authority change does not match the committed transfer",
            PeerCheckError::TransferSourceNotMember => "transfer source is not a world member",
            PeerCheckError::TransferTargetNotMember => "transfer target is not a world member",
            PeerCheckError::TransferParticipantsRejected =>
                "transfer participants are banned or target is not authority eligible",
            PeerCheckError::TransferWrongSigner => "transfer phase was signed by the wrong participant",
            PeerCheckError::TransferSignerKeyMismatch => "transfer signer key does not match membership",
            PeerCheckError::TransferWithoutSnapshot => "cannot transfer authority without a snapshot",
            PeerCheckError::TransferWrongSnapshot => "transfer does not reference the exact latest snapshot",
            PeerCheckError::GenerationExhausted => "accepted authority generation is exhausted",
            PeerCheckError::TransferGenerationMismatch =>
                "transfer generation does not advance the accepted epoch exactly once",
            PeerCheckError::TransferDiscontinuous => "authority transfer does not continue the persisted transfer state",
            PeerCheckError::TransferNotPrepared => "authority transfer must begin in the prepared phase",
            PeerCheckError::NotRecoveryEpoch => "recovery certificate attached to a non-recovery epoch",
            PeerCheckError::BallotMismatch => "recovery epoch does not match its signed ballot",
            PeerCheckError::RecoveryWithoutBase => "recovery epoch has no canonical base snapshot",
            PeerCheckError::RecoveryBaseMismatch =>
                "recovery certificate canonical base does not match local verified history",
            PeerCheckError::StaleMembership => "recovery certificate membership hash is stale",
            PeerCheckError::TransferWorldMismatch => "transfer world does not match the accepted authority generation",
            PeerCheckError::TransferSourceKeyMismatch => "transfer source key does not match the accepted authority generation",
            PeerCheckError::NoSourceEpoch => "transfer successor epoch has no source generation",
            PeerCheckError::NoSourceFencingToken => "transfer successor fencing token has no source generation",
            PeerCheckError::TransferNotExtending => "transfer generation does not extend the accepted authority exactly once",
            PeerCheckError::TransferPeerLacksSnapshot => "transfer peer lacks the canonical snapshot",
            PeerCheckError::TransferSnapshotMismatch => "transfer token does not reference this peer's exact canonical snapshot",
        }
    }
}

// ---------------------------------------------------------------------------
// Membership
// ---------------------------------------------------------------------------

/// The position of the first entry of `peer` at or after `from`.
pub open spec fn find_member(members: Seq<MemberEntry>, peer: Seq<char>, from: int) -> Option<int>
    decreases members.len() - from,
{
    if from < 0 || from >= members.len() {
        None
    } else if members[from].peer_id@ == peer {
        Some(from)
    } else {
        find_member(members, peer, from + 1)
    }
}

pub proof fn lemma_find_member_bounds(members: Seq<MemberEntry>, peer: Seq<char>, from: int)
    ensures
        find_member(members, peer, from) matches Some(i) ==> from <= i < members.len() && members[i].peer_id@ == peer,
    decreases members.len() - from,
{
    if 0 <= from < members.len() && members[from].peer_id@ != peer {
        lemma_find_member_bounds(members, peer, from + 1);
    }
}

/// The position of `peer`'s entry in the descriptor.
pub fn member_position(members: &[MemberEntry], peer: &String) -> (r: Option<usize>)
    ensures
        match find_member(members@, peer@, 0) {
            Some(i) => r matches Some(k) && k as int == i && i < members@.len(),
            None => r is None,
        },
{
    proof {
        lemma_find_member_bounds(members@, peer@, 0);
    }
    let mut i: usize = 0;
    while i < members.len()
        invariant
            i <= members@.len(),
            find_member(members@, peer@, 0) == find_member(members@, peer@, i as int),
        decreases members@.len() - i,
    {
        if members[i].peer_id == *peer {
            return Some(i);
        }
        i = i + 1;
    }
    None
}

/// A peer may speak in a world when it has an entry whose key derives to
/// its id and it is not banned; the answer is that entry's position.
pub open spec fn member_check(members: Seq<MemberEntry>, peer: Seq<char>) -> Result<int, PeerCheckError> {
    match find_member(members, peer, 0) {
        None => Err(PeerCheckError::NotMember),
        Some(i) => if members[i].key_peer_id@ != peer {
            Err(PeerCheckError::KeyMismatch)
        } else if members[i].banned {
            Err(PeerCheckError::Banned)
        } else {
            Ok(i)
        },
    }
}

/// The entry of a peer that may speak in the world.
pub fn authorized_member(members: &[MemberEntry], peer: &String) -> (r: Result<usize, PeerCheckError>)
    ensures
        match r {
            Ok(i) => member_check(members@, peer@) == Ok::<int, PeerCheckError>(i as int) && i < members@.len(),
            Err(e) => member_check(members@, peer@) == Err::<int, PeerCheckError>(e),
        },
{
    match member_position(members, peer) {
        None => Err(PeerCheckError::NotMember),
        Some(i) => {
            if !(members[i].key_peer_id == *peer) {
                Err(PeerCheckError::KeyMismatch)
            } else if members[i].banned {
                Err(PeerCheckError::Banned)
            } else {
                Ok(i)
            }
        },
    }
}

/// An acknowledgement names the generation it was asked about.
pub fn generation_response_matches(expected: (u64, u64), epoch: u64, fencing_token: u64) -> (r: bool)
    ensures
        r == (epoch == expected.0 && fencing_token == expected.1),
{
    epoch == expected.0 && fencing_token == expected.1
}

// ---------------------------------------------------------------------------
// World configuration and snapshots
// ---------------------------------------------------------------------------

/// The authority a world configuration must come from: the accepted epoch's
/// authority where an epoch is accepted, else the bootstrap authority of the
/// signed membership record. Each is a peer id and a public key.
pub enum KnownAuthority {
    Accepted(String, String),
    Bootstrap(String, String),
}

pub open spec fn config_check(
    sender: Seq<char>,
    config_peer: Seq<char>,
    config_key: Seq<char>,
    known: KnownAuthority,
) -> Result<(), PeerCheckError> {
    if sender != config_peer {
        Err(PeerCheckError::ConfigSenderMismatch)
    } else {
        match known {
            KnownAuthority::Accepted(peer, key) => if config_peer != peer@ || config_key != key@ {
                Err(PeerCheckError::ConfigNotCurrentAuthority)
            } else {
                Ok(())
            },
            KnownAuthority::Bootstrap(peer, key) => if config_peer != peer@ || config_key != key@ {
                Err(PeerCheckError::ConfigNotBootstrapAuthority)
            } else {
                Ok(())
            },
        }
    }
}

/// A world configuration is sent by the authority it names, and that is the
/// authority the world currently knows.
pub fn authorize_world_config(
    sender: &String,
    config_peer: &String,
    config_key: &String,
    known: &KnownAuthority,
) -> (r: Result<(), PeerCheckError>)
    ensures
        r == config_check(sender@, config_peer@, config_key@, *known),
{
    if !(*sender == *config_peer) {
        return Err(PeerCheckError::ConfigSenderMismatch);
    }
    match known {
        KnownAuthority::Accepted(peer, key) => {
            if !(*config_peer == *peer) || !(*config_key == *key) {
                Err(PeerCheckError::ConfigNotCurrentAuthority)
            } else {
                Ok(())
            }
        },
        KnownAuthority::Bootstrap(peer, key) => {
            if !(*config_peer == *peer) || !(*config_key == *key) {
                Err(PeerCheckError::ConfigNotBootstrapAuthority)
            } else {
                Ok(())
            }
        },
    }
}

/// The authority named by a message is an eligible, unbanned member whose
/// entry holds the key the message names.
pub open spec fn authority_entry_ok(members: Seq<MemberEntry>, i: int, key: Seq<char>) -> bool {
    !members[i].banned && members[i].authority_eligible && members[i].public_key@ == key
}

pub open spec fn snapshot_members_check(
    members: Seq<MemberEntry>,
    sender: Seq<char>,
    authority: Seq<char>,
    authority_key: Seq<char>,
) -> Result<(), PeerCheckError> {
    match member_check(members, sender) {
        Err(e) => Err(e),
        Ok(_) => match find_member(members, authority, 0) {
            None => Err(PeerCheckError::SnapshotAuthorityNotMember),
            Some(i) => if authority_entry_ok(members, i, authority_key) {
                Ok(())
            } else {
                Err(PeerCheckError::SnapshotAuthorityIneligible)
            },
        },
    }
}

/// Before its signature is checked: a snapshot comes from a member, and the
/// authority it names may hold the world with the key it names.
pub fn authorize_snapshot_members(
    members: &[MemberEntry],
    sender: &String,
    authority: &String,
    authority_key: &String,
) -> (r: Result<(), PeerCheckError>)
    ensures
        r == snapshot_members_check(members@, sender@, authority@, authority_key@),
{
    match authorized_member(members, sender) {
        Err(e) => return Err(e),
        Ok(_) => {},
    }
    match member_position(members, authority) {
        None => Err(PeerCheckError::SnapshotAuthorityNotMember),
        Some(i) => {
            let m = &members[i];
            if !m.banned && m.authority_eligible && m.public_key == *authority_key {
                Ok(())
            } else {
                Err(PeerCheckError::SnapshotAuthorityIneligible)
            }
        },
    }
}

pub open spec fn snapshot_epoch_check(
    epoch: u64,
    authority: Seq<char>,
    authority_key: Seq<char>,
    accepted: Option<AuthorityGeneration>,
) -> Result<(), PeerCheckError> {
    match accepted {
        Some(g) => if epoch != g.epoch_number || authority != g.authority_peer_id@ || authority_key
            != g.authority_public_key@ {
            Err(PeerCheckError::SnapshotEpochMismatch)
        } else {
            Ok(())
        },
        None => Ok(()),
    }
}

/// Where an epoch is accepted, a snapshot belongs to it: same epoch number,
/// same authority and key.
pub fn check_snapshot_epoch(
    epoch: u64,
    authority: &String,
    authority_key: &String,
    accepted: Option<&AuthorityGeneration>,
) -> (r: Result<(), PeerCheckError>)
    ensures
        r == snapshot_epoch_check(
            epoch,
            authority@,
            authority_key@,
            match accepted {
                Some(g) => Some(*g),
                None => None,
            },
        ),
{
    match accepted {
        Some(g) => {
            if epoch != g.epoch_number || !(*authority == g.authority_peer_id) || !(*authority_key
                == g.authority_public_key) {
                Err(PeerCheckError::SnapshotEpochMismatch)
            } else {
                Ok(())
            }
        },
        None => Ok(()),
    }
}

// ---------------------------------------------------------------------------
// Authority epochs
// ---------------------------------------------------------------------------

pub open spec fn epoch_members_check(
    members: Seq<MemberEntry>,
    sender: Seq<char>,
    authority: Seq<char>,
    authority_key: Seq<char>,
) -> Result<(), PeerCheckError> {
    match member_check(members, sender) {
        Err(e) => Err(e),
        Ok(_) => match member_check(members, authority) {
            Err(e) => Err(e),
            Ok(i) => if authority_entry_ok(members, i, authority_key) {
                Ok(())
            } else {
                Err(PeerCheckError::EpochAuthorityIneligible)
            },
        },
    }
}

/// Before its signature is checked: an epoch comes from a member, names a
/// member as authority, and that authority may hold the world with the key
/// the epoch names.
pub fn authorize_epoch_members(
    members: &[MemberEntry],
    sender: &String,
    authority: &String,
    authority_key: &String,
) -> (r: Result<(), PeerCheckError>)
    ensures
        r == epoch_members_check(members@, sender@, authority@, authority_key@),
{
    match authorized_member(members, sender) {
        Err(e) => return Err(e),
        Ok(_) => {},
    }
    match authorized_member(members, authority) {
        Err(e) => Err(e),
        Ok(i) => {
            let m = &members[i];
            if !m.banned && m.authority_eligible && m.public_key == *authority_key {
                Ok(())
            } else {
                Err(PeerCheckError::EpochAuthorityIneligible)
            }
        },
    }
}

pub open spec fn epoch_base_check(latest_state_root: Option<Seq<char>>, base_state_hash: Seq<char>) -> Result<
    (),
    PeerCheckError,
> {
    match latest_state_root {
        None => Err(PeerCheckError::EpochWithoutBase),
        Some(root) => if root != base_state_hash {
            Err(PeerCheckError::EpochBaseMismatch)
        } else {
            Ok(())
        },
    }
}

/// An epoch builds on the latest verified snapshot's state.
pub fn check_epoch_base(latest_state_root: Option<&String>, base_state_hash: &String) -> (r: Result<
    (),
    PeerCheckError,
>)
    ensures
        r == epoch_base_check(
            match latest_state_root {
                Some(s) => Some(s@),
                None => None,
            },
            base_state_hash@,
        ),
{
    match latest_state_root {
        None => Err(PeerCheckError::EpochWithoutBase),
        Some(root) => {
            if !(*root == *base_state_hash) {
                Err(PeerCheckError::EpochBaseMismatch)
            } else {
                Ok(())
            }
        },
    }
}

/// What accepting a non-recovery epoch still needs once its shape is right.
#[derive(Debug, Clone, Copy, PartialEq, Eq, Structural)]
pub enum TransitionNeed {
    /// Nothing more: the epoch may be accepted.
    Accept,
    /// The same authority enters solo mode: the world must allow solo
    /// advancement and have a single active member.
    CheckSolo,
}

pub open spec fn transition_check(
    current: AuthorityGeneration,
    next: AuthorityGeneration,
    transfer: Option<AuthorityTransfer>,
) -> Result<TransitionNeed, PeerCheckError> {
    if next.mode == EpochMode::Recovery {
        Err(PeerCheckError::RecoveryNeedsCertificate)
    } else if next.authority_peer_id@ == current.authority_peer_id@ {
        if next.authority_public_key@ != current.authority_public_key@ {
            Err(PeerCheckError::AuthorityKeyChanged)
        } else if next.mode == EpochMode::Solo {
            Ok(TransitionNeed::CheckSolo)
        } else {
            Ok(TransitionNeed::Accept)
        }
    } else {
        match transfer {
            None => Err(PeerCheckError::TransferMissing),
            Some(t) => if t.phase != TransferPhase::Committed || t.from_peer_id@ != current.authority_peer_id@
                || t.to_peer_id@ != next.authority_peer_id@ || t.next_epoch != next.epoch_number
                || t.next_fencing_token != next.fencing_token {
                Err(PeerCheckError::TransferMismatch)
            } else {
                Ok(TransitionNeed::Accept)
            },
        }
    }
}

/// A non-recovery epoch after `current`: the same authority keeps its key
/// (and may go solo, subject to `solo_transition`), and a new authority
/// takes over only through the committed transfer to it, at the generation
/// that transfer names. `transfer` is the persisted transfer, where one
/// could be read.
pub fn check_epoch_transition(
    current: &AuthorityGeneration,
    next: &AuthorityGeneration,
    transfer: Option<&AuthorityTransfer>,
) -> (r: Result<TransitionNeed, PeerCheckError>)
    ensures
        r == transition_check(
            *current,
            *next,
            match transfer {
                Some(t) => Some(*t),
                None => None,
            },
        ),
{
    if next.mode == EpochMode::Recovery {
        return Err(PeerCheckError::RecoveryNeedsCertificate);
    }
    if next.authority_peer_id == current.authority_peer_id {
        if !(next.authority_public_key == current.authority_public_key) {
            return Err(PeerCheckError::AuthorityKeyChanged);
        }
        if next.mode == EpochMode::Solo {
            return Ok(TransitionNeed::CheckSolo);
        }
        return Ok(TransitionNeed::Accept);
    }
    match transfer {
        None => Err(PeerCheckError::TransferMissing),
        Some(t) => {
            if t.phase != TransferPhase::Committed || !(t.from_peer_id == current.authority_peer_id) || !(t.to_peer_id
                == next.authority_peer_id) || t.next_epoch != next.epoch_number || t.next_fencing_token
                != next.fencing_token {
                Err(PeerCheckError::TransferMismatch)
            } else {
                Ok(TransitionNeed::Accept)
            }
        },
    }
}

/// Authority changes hands only through a committed transfer: an accepted
/// non-recovery epoch with a new authority follows the persisted, committed
/// transfer from the current authority to exactly that peer, at exactly the
/// generation it names; and an unchanged authority keeps its key.
pub proof fn lemma_authority_changes_only_by_committed_transfer(
    current: AuthorityGeneration,
    next: AuthorityGeneration,
    transfer: Option<AuthorityTransfer>,
)
    requires
        transition_check(current, next, transfer) is Ok,
    ensures
        next.mode != EpochMode::Recovery,
        next.authority_peer_id@ == current.authority_peer_id@ ==> next.authority_public_key@
            == current.authority_public_key@,
        next.authority_peer_id@ != current.authority_peer_id@ ==> (transfer matches Some(t) && t.phase
            == TransferPhase::Committed && t.from_peer_id@ == current.authority_peer_id@ && t.to_peer_id@
            == next.authority_peer_id@ && t.next_epoch == next.epoch_number && t.next_fencing_token
            == next.fencing_token),
{
}

/// The solo part of a transition: the signed world configuration allows
/// solo advancement, and at most one member is not banned.
pub fn solo_transition(solo_allowed: bool, active_members: usize) -> (r: Result<(), PeerCheckError>)
    ensures
        !solo_allowed ==> r == Err::<(), PeerCheckError>(PeerCheckError::SoloDisabled),
        solo_allowed && active_members > 1 ==> r == Err::<(), PeerCheckError>(
            PeerCheckError::SoloWithSeveralMembers,
        ),
        solo_allowed && active_members <= 1 ==> r is Ok,
{
    if !solo_allowed {
        return Err(PeerCheckError::SoloDisabled);
    }
    if active_members > 1 {
        return Err(PeerCheckError::SoloWithSeveralMembers);
    }
    Ok(())
}

// ---------------------------------------------------------------------------
// Authority transfers
// ---------------------------------------------------------------------------

/// The participant who signs each phase: the source prepares and commits,
/// the target accepts.
pub open spec fn expected_signer(t: AuthorityTransfer) -> Seq<char> {
    match t.phase {
        TransferPhase::Prepared | TransferPhase::Committed => t.from_peer_id@,
        TransferPhase::Accepted => t.to_peer_id@,
    }
}

/// `next` is the phase right after `previous`, for the same handover.
pub open spec fn continues(previous: AuthorityTransfer, next: AuthorityTransfer) -> bool {
    &&& ((previous.phase == TransferPhase::Prepared && next.phase == TransferPhase::Accepted) || (previous.phase
        == TransferPhase::Accepted && next.phase == TransferPhase::Committed))
    &&& previous.from_peer_id@ == next.from_peer_id@
    &&& previous.to_peer_id@ == next.to_peer_id@
    &&& previous.base_snapshot_hash@ == next.base_snapshot_hash@
    &&& previous.next_epoch == next.next_epoch
    &&& previous.next_fencing_token == next.next_fencing_token
}

pub open spec fn transfer_check(
    members: Seq<MemberEntry>,
    t: AuthorityTransfer,
    signer_key: Seq<char>,
    latest_manifest_hash: Option<Seq<char>>,
    accepted: Option<(u64, u64)>,
    previous: Option<AuthorityTransfer>,
) -> Result<(), PeerCheckError> {
    match find_member(members, t.from_peer_id@, 0) {
        None => Err(PeerCheckError::TransferSourceNotMember),
        Some(from) => match find_member(members, t.to_peer_id@, 0) {
            None => Err(PeerCheckError::TransferTargetNotMember),
            Some(to) => if members[from].banned || members[to].banned || !members[to].authority_eligible {
                Err(PeerCheckError::TransferParticipantsRejected)
            } else if t.signer_peer_id@ != expected_signer(t) {
                Err(PeerCheckError::TransferWrongSigner)
            } else if members[if t.phase == TransferPhase::Accepted {
                to
            } else {
                from
            }].public_key@ != signer_key {
                Err(PeerCheckError::TransferSignerKeyMismatch)
            } else {
                match latest_manifest_hash {
                    None => Err(PeerCheckError::TransferWithoutSnapshot),
                    Some(h) => if h != t.base_snapshot_hash@ {
                        Err(PeerCheckError::TransferWrongSnapshot)
                    } else {
                        match accepted {
                            Some((epoch, token)) if epoch == u64::MAX || token == u64::MAX => Err(
                                PeerCheckError::GenerationExhausted,
                            ),
                            Some((epoch, token)) if t.next_epoch != epoch + 1 || t.next_fencing_token != token
                                + 1 => Err(PeerCheckError::TransferGenerationMismatch),
                            _ => match previous {
                                Some(p) => if continues(p, t) {
                                    Ok(())
                                } else {
                                    Err(PeerCheckError::TransferDiscontinuous)
                                },
                                None => if t.phase != TransferPhase::Prepared {
                                    Err(PeerCheckError::TransferNotPrepared)
                                } else {
                                    Ok(())
                                },
                            },
                        }
                    },
                }
            },
        },
    }
}

/// A transfer phase received from a peer: both participants are members,
/// neither is banned and the target may hold authority; the phase is signed
/// by the participant it belongs to, with the key of its entry; it names the
/// latest snapshot and the generation right after the accepted one, where
/// one is accepted; and it is the phase right after the persisted one, or a
/// prepared phase where none is persisted.
pub fn validate_transfer_record(
    members: &[MemberEntry],
    t: &AuthorityTransfer,
    signer_key: &String,
    latest_manifest_hash: Option<&String>,
    accepted: Option<(u64, u64)>,
    previous: Option<&AuthorityTransfer>,
) -> (r: Result<(), PeerCheckError>)
    ensures
        r == transfer_check(
            members@,
            *t,
            signer_key@,
            match latest_manifest_hash {
                Some(h) => Some(h@),
                None => None,
            },
            accepted,
            match previous {
                Some(p) => Some(*p),
                None => None,
            },
        ),
{
    let from = match member_position(members, &t.from_peer_id) {
        None => return Err(PeerCheckError::TransferSourceNotMember),
        Some(i) => i,
    };
    let to = match member_position(members, &t.to_peer_id) {
        None => return Err(PeerCheckError::TransferTargetNotMember),
        Some(i) => i,
    };
    if members[from].banned || members[to].banned || !members[to].authority_eligible {
        return Err(PeerCheckError::TransferParticipantsRejected);
    }
    let signer = match t.phase {
        TransferPhase::Prepared | TransferPhase::Committed => &t.from_peer_id,
        TransferPhase::Accepted => &t.to_peer_id,
    };
    if !(t.signer_peer_id == *signer) {
        return Err(PeerCheckError::TransferWrongSigner);
    }
    let signer_entry = if t.phase == TransferPhase::Accepted {
        to
    } else {
        from
    };
    if !(members[signer_entry].public_key == *signer_key) {
        return Err(PeerCheckError::TransferSignerKeyMismatch);
    }
    match latest_manifest_hash {
        None => return Err(PeerCheckError::TransferWithoutSnapshot),
        Some(h) => {
            if !(*h == t.base_snapshot_hash) {
                return Err(PeerCheckError::TransferWrongSnapshot);
            }
        },
    }
    match accepted {
        Some((epoch, token)) => {
            if epoch == u64::MAX || token == u64::MAX {
                return Err(PeerCheckError::GenerationExhausted);
            }
            if t.next_epoch != epoch + 1 || t.next_fencing_token != token + 1 {
                return Err(PeerCheckError::TransferGenerationMismatch);
            }
        },
        None => {},
    }
    match previous {
        Some(p) => {
            let progression = (p.phase == TransferPhase::Prepared && t.phase == TransferPhase::Accepted) || (p.phase
                == TransferPhase::Accepted && t.phase == TransferPhase::Committed);
            let same = p.from_peer_id == t.from_peer_id && p.to_peer_id == t.to_peer_id && p.base_snapshot_hash
                == t.base_snapshot_hash && p.next_epoch == t.next_epoch && p.next_fencing_token
                == t.next_fencing_token;
            if progression && same {
                Ok(())
            } else {
                Err(PeerCheckError::TransferDiscontinuous)
            }
        },
        None => {
            if t.phase != TransferPhase::Prepared {
                Err(PeerCheckError::TransferNotPrepared)
            } else {
                Ok(())
            }
        },
    }
}

pub open spec fn transfer_epoch_check(
    members: Seq<MemberEntry>,
    t: AuthorityTransfer,
    signer_key: Seq<char>,
    current: AuthorityGeneration,
    latest_manifest_hash: Option<Seq<char>>,
) -> Result<(), PeerCheckError> {
    if t.world_id@ != current.world_id@ {
        Err(PeerCheckError::TransferWorldMismatch)
    } else {
        match find_member(members, t.from_peer_id@, 0) {
            None => Err(PeerCheckError::TransferSourceNotMember),
            Some(from) => match find_member(members, t.to_peer_id@, 0) {
                None => Err(PeerCheckError::TransferTargetNotMember),
                Some(to) => if members[from].banned || members[to].banned || !members[to].authority_eligible {
                    Err(PeerCheckError::TransferParticipantsRejected)
                } else if members[from].public_key@ != current.authority_public_key@ {
                    Err(PeerCheckError::TransferSourceKeyMismatch)
                } else if t.signer_peer_id@ != expected_signer(t) {
                    Err(PeerCheckError::TransferWrongSigner)
                } else if members[if t.phase == TransferPhase::Accepted {
                    to
                } else {
                    from
                }].public_key@ != signer_key {
                    Err(PeerCheckError::TransferSignerKeyMismatch)
                } else if t.next_epoch == 0 {
                    Err(PeerCheckError::NoSourceEpoch)
                } else if t.next_fencing_token == 0 {
                    Err(PeerCheckError::NoSourceFencingToken)
                } else if !crate::migration::source_generation_spec(t, current) {
                    Err(PeerCheckError::TransferNotExtending)
                } else {
                    match latest_manifest_hash {
                        None => Err(PeerCheckError::TransferPeerLacksSnapshot),
                        Some(h) => if h != t.base_snapshot_hash@ {
                            Err(PeerCheckError::TransferSnapshotMismatch)
                        } else {
                            Ok(())
                        },
                    }
                },
            },
        }
    }
}

/// A transfer token this device acts on, checked against the accepted
/// epoch it holds: same world; both participants are members, unbanned, the
/// target eligible; the source holds the accepted generation's key; the
/// phase is signed by its participant with that participant's key; the
/// token names the generation right after the accepted one; and it is based
/// on this device's latest verified snapshot.
pub fn validate_transfer_against_epoch(
    members: &[MemberEntry],
    t: &AuthorityTransfer,
    signer_key: &String,
    current: &AuthorityGeneration,
    latest_manifest_hash: Option<&String>,
) -> (r: Result<(), PeerCheckError>)
    ensures
        r == transfer_epoch_check(
            members@,
            *t,
            signer_key@,
            *current,
            match latest_manifest_hash {
                Some(h) => Some(h@),
                None => None,
            },
        ),
{
    if !(t.world_id == current.world_id) {
        return Err(PeerCheckError::TransferWorldMismatch);
    }
    let from = match member_position(members, &t.from_peer_id) {
        None => return Err(PeerCheckError::TransferSourceNotMember),
        Some(i) => i,
    };
    let to = match member_position(members, &t.to_peer_id) {
        None => return Err(PeerCheckError::TransferTargetNotMember),
        Some(i) => i,
    };
    if members[from].banned || members[to].banned || !members[to].authority_eligible {
        return Err(PeerCheckError::TransferParticipantsRejected);
    }
    if !(members[from].public_key == current.authority_public_key) {
        return Err(PeerCheckError::TransferSourceKeyMismatch);
    }
    let signer = match t.phase {
        TransferPhase::Prepared | TransferPhase::Committed => &t.from_peer_id,
        TransferPhase::Accepted => &t.to_peer_id,
    };
    if !(t.signer_peer_id == *signer) {
        return Err(PeerCheckError::TransferWrongSigner);
    }
    let signer_entry = if t.phase == TransferPhase::Accepted {
        to
    } else {
        from
    };
    if !(members[signer_entry].public_key == *signer_key) {
        return Err(PeerCheckError::TransferSignerKeyMismatch);
    }
    if t.next_epoch == 0 {
        return Err(PeerCheckError::NoSourceEpoch);
    }
    if t.next_fencing_token == 0 {
        return Err(PeerCheckError::NoSourceFencingToken);
    }
    if !crate::migration::transfer_is_source_generation(t, current) {
        return Err(PeerCheckError::TransferNotExtending);
    }
    match latest_manifest_hash {
        None => Err(PeerCheckError::TransferPeerLacksSnapshot),
        Some(h) => {
            if !(*h == t.base_snapshot_hash) {
                Err(PeerCheckError::TransferSnapshotMismatch)
            } else {
                Ok(())
            }
        },
    }
}

/// A transfer is accepted phase by phase: once a phase is persisted, the
/// only phase accepted after it is the next one of the same handover, so a
/// committed transfer is never followed by another phase of it, and no
/// phase is accepted twice.
pub proof fn lemma_transfer_phases_only_advance(
    members: Seq<MemberEntry>,
    t: AuthorityTransfer,
    signer_key: Seq<char>,
    latest_manifest_hash: Option<Seq<char>>,
    accepted: Option<(u64, u64)>,
    previous: AuthorityTransfer,
)
    requires
        transfer_check(members, t, signer_key, latest_manifest_hash, accepted, Some(previous)) is Ok,
    ensures
        previous.phase != TransferPhase::Committed,
        t.phase != previous.phase,
        previous.phase == TransferPhase::Prepared ==> t.phase == TransferPhase::Accepted,
        previous.phase == TransferPhase::Accepted ==> t.phase == TransferPhase::Committed,
        t.from_peer_id@ == previous.from_peer_id@ && t.to_peer_id@ == previous.to_peer_id@,
        t.next_epoch == previous.next_epoch && t.next_fencing_token == previous.next_fencing_token,
{
}

// ---------------------------------------------------------------------------
// Recovery epochs
// ---------------------------------------------------------------------------

/// The signed ballot a recovery certificate carries.
pub struct RecoveryBallot {
    pub candidate_peer_id: String,
    pub candidate_public_key: String,
    pub target_epoch: u64,
    pub target_fencing_token: u64,
    pub base_state_hash: String,
    pub base_snapshot_hash: String,
    pub membership_hash: String,
}

/// A recovery certificate comes only with a recovery epoch.
pub fn require_recovery_mode(record: &AuthorityGeneration) -> (r: Result<(), PeerCheckError>)
    ensures
        r is Ok <==> record.mode == EpochMode::Recovery,
        r is Err ==> r == Err::<(), PeerCheckError>(PeerCheckError::NotRecoveryEpoch),
{
    if record.mode != EpochMode::Recovery {
        Err(PeerCheckError::NotRecoveryEpoch)
    } else {
        Ok(())
    }
}

/// The recovery epoch is the one its ballot elected: sent by the candidate,
/// with the candidate's key, at the ballot's generation, on the ballot's
/// base state.
pub open spec fn ballot_matches(
    sender: Seq<char>,
    record: AuthorityGeneration,
    base_state_hash: Seq<char>,
    ballot: RecoveryBallot,
) -> bool {
    &&& sender == ballot.candidate_peer_id@
    &&& record.authority_peer_id@ == ballot.candidate_peer_id@
    &&& record.authority_public_key@ == ballot.candidate_public_key@
    &&& record.epoch_number == ballot.target_epoch
    &&& record.fencing_token == ballot.target_fencing_token
    &&& base_state_hash == ballot.base_state_hash@
}

/// Checks that a recovery epoch is the one its signed ballot elected.
pub fn check_recovery_ballot(
    sender: &String,
    record: &AuthorityGeneration,
    base_state_hash: &String,
    ballot: &RecoveryBallot,
) -> (r: Result<(), PeerCheckError>)
    ensures
        r is Ok <==> ballot_matches(sender@, *record, base_state_hash@, *ballot),
        r is Err ==> r == Err::<(), PeerCheckError>(PeerCheckError::BallotMismatch),
{
    if *sender == ballot.candidate_peer_id && record.authority_peer_id == ballot.candidate_peer_id
        && record.authority_public_key == ballot.candidate_public_key && record.epoch_number == ballot.target_epoch
        && record.fencing_token == ballot.target_fencing_token && *base_state_hash == ballot.base_state_hash {
        Ok(())
    } else {
        Err(PeerCheckError::BallotMismatch)
    }
}

/// The ballot's base is the local latest verified snapshot (its manifest
/// hash and state root), and its membership hash is the local membership
/// record's.
pub open spec fn recovery_base_check(
    latest: Option<(Seq<char>, Seq<char>)>,
    membership_hash: Seq<char>,
    ballot: RecoveryBallot,
) -> Result<(), PeerCheckError> {
    match latest {
        None => Err(PeerCheckError::RecoveryWithoutBase),
        Some((manifest_hash, state_root)) => if manifest_hash != ballot.base_snapshot_hash@ || state_root
            != ballot.base_state_hash@ {
            Err(PeerCheckError::RecoveryBaseMismatch)
        } else if membership_hash != ballot.membership_hash@ {
            Err(PeerCheckError::StaleMembership)
        } else {
            Ok(())
        },
    }
}

/// Checks a recovery ballot against local verified history.
pub fn check_recovery_base(
    latest: Option<(&String, &String)>,
    membership_hash: &String,
    ballot: &RecoveryBallot,
) -> (r: Result<(), PeerCheckError>)
    ensures
        r == recovery_base_check(
            match latest {
                Some((m, s)) => Some((m@, s@)),
                None => None,
            },
            membership_hash@,
            *ballot,
        ),
{
    match latest {
        None => Err(PeerCheckError::RecoveryWithoutBase),
        Some((manifest_hash, state_root)) => {
            if !(*manifest_hash == ballot.base_snapshot_hash) || !(*state_root == ballot.base_state_hash) {
                Err(PeerCheckError::RecoveryBaseMismatch)
            } else if !(*membership_hash == ballot.membership_hash) {
                Err(PeerCheckError::StaleMembership)
            } else {
                Ok(())
            }
        },
    }
}

/// The ids of the members that are not banned, in order.
pub open spec fn active_peer_ids(members: Seq<MemberEntry>) -> Seq<Seq<char>>
    decreases members.len(),
{
    if members.len() == 0 {
        Seq::empty()
    } else {
        let earlier = active_peer_ids(members.drop_last());
        if members.last().banned {
            earlier
        } else {
            earlier.push(members.last().peer_id@)
        }
    }
}

/// The members a recovery certificate must be checked against.
pub fn canonical_recovery_members(members: &[MemberEntry]) -> (r: Vec<String>)
    ensures
        crate::text::texts_of(r@) == active_peer_ids(members@),
{
    let mut out: Vec<String> = Vec::new();
    let mut i: usize = 0;
    while i < members.len()
        invariant
            i <= members@.len(),
            crate::text::texts_of(out@) == active_peer_ids(members@.subrange(0, i as int)),
        decreases members@.len() - i,
    {
        proof {
            assert(members@.subrange(0, i + 1).drop_last() =~= members@.subrange(0, i as int));
            assert(members@.subrange(0, i + 1).last() == members@[i as int]);
        }
        if !members[i].banned {
            let ghost before = out@;
            out.push(members[i].peer_id.clone());
            assert(crate::text::texts_of(out@) =~= crate::text::texts_of(before).push(members@[i as int].peer_id@));
        }
        i = i + 1;
    }
    assert(members@.subrange(0, members@.len() as int) =~= members@);
    out
}

// ---------------------------------------------------------------------------
// World status
// ---------------------------------------------------------------------------

/// The latest verified snapshot of a world, as a status reports it.
pub struct LatestSnapshot {
    pub epoch: u64,
    pub sequence: u64,
    pub manifest_hash: String,
    pub state_root: String,
}

/// The status this device reports for a world it stores: the accepted
/// epoch's number, else the latest snapshot's epoch, else zero; the latest
/// snapshot's sequence, hash and state; and whether the local entry may hold
/// authority.
pub open spec fn status_spec(
    world_id: Seq<char>,
    fingerprint: Seq<char>,
    latest: Option<LatestSnapshot>,
    local_entry: Option<(bool, bool)>,
    accepted_epoch: Option<u64>,
    s: PeerStatus,
) -> bool {
    &&& s.world_id@ == world_id
    &&& s.epoch == match accepted_epoch {
        Some(e) => e,
        None => match latest {
            Some(l) => l.epoch,
            None => 0,
        },
    }
    &&& s.sequence == match latest {
        Some(l) => l.sequence,
        None => 0,
    }
    &&& crate::discovery::opt_view(s.latest_snapshot) == match latest {
        Some(l) => Some(l.manifest_hash@),
        None => None::<Seq<char>>,
    }
    &&& crate::discovery::opt_view(s.state_hash) == match latest {
        Some(l) => Some(l.state_root@),
        None => None::<Seq<char>>,
    }
    &&& s.compatibility_fingerprint@ == fingerprint
    &&& s.authority_eligible == match local_entry {
        Some((eligible, banned)) => eligible && !banned,
        None => false,
    }
}

/// The status of a world: `None` where the world is not stored here
/// (`fingerprint` is its genesis compatibility fingerprint where it is);
/// `local_entry` is the local peer's (eligible, banned) flags where the
/// descriptor lists it.
pub fn world_status_of(
    world_id: &String,
    fingerprint: Option<&String>,
    latest: Option<&LatestSnapshot>,
    local_entry: Option<(bool, bool)>,
    accepted_epoch: Option<u64>,
) -> (r: Option<PeerStatus>)
    ensures
        fingerprint is None ==> r is None,
        fingerprint matches Some(f) ==> (r matches Some(s) && status_spec(
            world_id@,
            f@,
            match latest {
                Some(l) => Some(*l),
                None => None,
            },
            local_entry,
            accepted_epoch,
            s,
        )),
{
    let f = match fingerprint {
        None => return None,
        Some(f) => f,
    };
    let epoch = match accepted_epoch {
        Some(e) => e,
        None => match latest {
            Some(l) => l.epoch,
            None => 0,
        },
    };
    let (sequence, latest_snapshot, state_hash) = match latest {
        Some(l) => (l.sequence, Some(l.manifest_hash.clone()), Some(l.state_root.clone())),
        None => (0, None, None),
    };
    let authority_eligible = match local_entry {
        Some((eligible, banned)) => eligible && !banned,
        None => false,
    };
    Some(
        PeerStatus {
            world_id: world_id.clone(),
            epoch,
            sequence,
            latest_snapshot,
            state_hash,
            compatibility_fingerprint: f.clone(),
            authority_eligible,
        },
    )
}

} // verus!
