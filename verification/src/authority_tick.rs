//! The per-world decisions of the daemon's authority tick: what this device
//! does for a world on each tick, which peers it can see agreeing with it
//! when the authority is gone, and how many peers confirm its own authority.
//! The quorum rule, the election among candidates, timers and the network
//! are the caller's.
use vstd::prelude::*;
use crate::authorization::MemberEntry;
use crate::discovery::opt_view;
use crate::host_readiness::{EpochMode, HostCapability, PeerReadinessObservation, PeerStatus, WorldMember};
use crate::migration::{AuthorityGeneration, LocalIdentity};

verus! {

/// How long a lease acknowledgement counts, in nanoseconds: one lease
/// duration.
pub const LEASE_ACK_FRESH_NANOS: u64 = 5_000_000_000;

/// How long a peer's reported status stays usable, in nanoseconds.
pub const STATUS_FRESHNESS_NANOS: u64 = 3_000_000_000;

/// What this device holds of a world at the start of a tick.
pub struct WorldFacts {
    pub sleeping: bool,
    pub membership_prepared: bool,
    pub descriptor_loaded: bool,
    /// The local entry of the descriptor, where it lists this device: its
    /// key matches the local key, it is banned, it is authority eligible.
    pub local_entry: Option<(bool, bool, bool)>,
    /// The accepted epoch, where one is stored: whether this device is its
    /// authority (same peer and key) and its mode.
    pub epoch: Option<(bool, EpochMode)>,
    pub active_members: usize,
}

/// What the tick does for a world.
#[derive(Debug, Clone, Copy, PartialEq, Eq, Structural)]
pub enum WorldTick {
    /// The world sleeps: clear its permit and every runtime entry of it.
    ClearSleeping,
    /// A membership transition is prepared: clear the permit and drive the
    /// transition.
    DriveMembership,
    /// This device cannot act for the world: clear its permit.
    ClearPermit,
    /// This device is the accepted authority: lead (in a recovery epoch,
    /// after making sure its recovery artefacts exist).
    Lead { recovery: bool },
    /// Another peer is the authority: clear the permit and, where this
    /// device could take over, watch the world for a recovery.
    Follow { watch: bool },
}

pub open spec fn world_tick_spec(f: WorldFacts) -> WorldTick {
    if f.sleeping {
        WorldTick::ClearSleeping
    } else if f.membership_prepared {
        WorldTick::DriveMembership
    } else if !f.descriptor_loaded {
        WorldTick::ClearPermit
    } else {
        match f.local_entry {
            None => WorldTick::ClearPermit,
            Some((key_matches, banned, eligible)) => if banned || !key_matches {
                WorldTick::ClearPermit
            } else {
                match f.epoch {
                    None => WorldTick::ClearPermit,
                    Some((local_is_authority, mode)) => if local_is_authority {
                        WorldTick::Lead { recovery: mode == EpochMode::Recovery }
                    } else {
                        WorldTick::Follow { watch: eligible && f.active_members > 1 }
                    },
                }
            },
        }
    }
}

/// The tick's decision for one world.
pub fn world_tick(f: &WorldFacts) -> (r: WorldTick)
    ensures
        r == world_tick_spec(*f),
{
    if f.sleeping {
        return WorldTick::ClearSleeping;
    }
    if f.membership_prepared {
        return WorldTick::DriveMembership;
    }
    if !f.descriptor_loaded {
        return WorldTick::ClearPermit;
    }
    match f.local_entry {
        None => WorldTick::ClearPermit,
        Some((key_matches, banned, eligible)) => {
            if banned || !key_matches {
                return WorldTick::ClearPermit;
            }
            match f.epoch {
                None => WorldTick::ClearPermit,
                Some((local_is_authority, mode)) => {
                    if local_is_authority {
                        WorldTick::Lead { recovery: mode == EpochMode::Recovery }
                    } else {
                        WorldTick::Follow { watch: eligible && f.active_members > 1 }
                    }
                },
            }
        },
    }
}

/// Only the accepted authority leads, and never a sleeping world, a world
/// with a prepared membership transition, or one whose membership does not
/// list this device, unbanned, with its own key.
pub proof fn lemma_only_the_authority_leads(f: WorldFacts)
    requires
        world_tick_spec(f) is Lead,
    ensures
        !f.sleeping,
        !f.membership_prepared,
        f.local_entry matches Some((key_matches, banned, _)) && key_matches && !banned,
        f.epoch matches Some((local_is_authority, _)) && local_is_authority,
{
}

/// A follower starts a recovery attempt only when the authority is not
/// connected, the recovery window is open and a verified snapshot exists.
pub fn recovery_attempt_allowed(authority_connected: bool, window_open: bool, has_snapshot: bool) -> (r: bool)
    ensures
        r == (!authority_connected && window_open && has_snapshot),
{
    !authority_connected && window_open && has_snapshot
}

/// What the recovery check compares a peer's status with: the world, the
/// accepted epoch and the latest verified snapshot here.
pub struct RecoveryBasis {
    pub local_peer: String,
    pub world_id: String,
    pub epoch_number: u64,
    pub latest_sequence: u64,
    pub latest_hash: String,
    pub latest_state_root: String,
    pub fingerprint: String,
}

/// A peer's last reported status and how long ago it arrived, in
/// nanoseconds.
pub struct ObservedStatus {
    pub status: PeerStatus,
    pub age_nanos: u64,
}

/// What this device knows of one member of the descriptor.
pub struct MemberObservation {
    pub authenticated: bool,
    pub status: Option<ObservedStatus>,
}

/// The member is another unbanned peer, connected, whose fresh status
/// agrees with this device's accepted epoch and latest snapshot.
pub open spec fn agrees(m: MemberEntry, o: MemberObservation, b: RecoveryBasis) -> bool {
    &&& m.peer_id@ != b.local_peer@
    &&& !m.banned
    &&& o.authenticated
    &&& o.status matches Some(os) && {
        &&& os.age_nanos <= STATUS_FRESHNESS_NANOS
        &&& os.status.world_id@ == b.world_id@
        &&& os.status.epoch == b.epoch_number
        &&& os.status.sequence == b.latest_sequence
        &&& opt_view(os.status.latest_snapshot) == Some(b.latest_hash@)
        &&& opt_view(os.status.state_hash) == Some(b.latest_state_root@)
        &&& os.status.compatibility_fingerprint@ == b.fingerprint@
    }
}

/// An agreeing member that may hold authority, by its entry and its own
/// report.
pub open spec fn candidate(m: MemberEntry, o: MemberObservation, b: RecoveryBasis) -> bool {
    agrees(m, o, b) && m.authority_eligible && (o.status matches Some(os) && os.status.authority_eligible)
}

/// The ids of the members (in order) for which `pick` holds.
pub open spec fn picked(
    members: Seq<MemberEntry>,
    observations: Seq<MemberObservation>,
    b: RecoveryBasis,
    eligible_only: bool,
) -> Seq<Seq<char>>
    decreases members.len(),
{
    if members.len() == 0 || observations.len() == 0 {
        Seq::empty()
    } else {
        let earlier = picked(members.drop_last(), observations.drop_last(), b, eligible_only);
        let m = members.last();
        let o = observations.last();
        if (eligible_only && candidate(m, o, b)) || (!eligible_only && agrees(m, o, b)) {
            earlier.push(m.peer_id@)
        } else {
            earlier
        }
    }
}

fn opt_text_eq(value: &Option<String>, expected: &String) -> (r: bool)
    ensures
        r == (opt_view(*value) == Some(expected@)),
{
    match value {
        Some(v) => *v == *expected,
        None => false,
    }
}

fn agrees_exec(m: &MemberEntry, o: &MemberObservation, b: &RecoveryBasis) -> (r: bool)
    ensures
        r == agrees(*m, *o, *b),
{
    if m.peer_id == b.local_peer || m.banned || !o.authenticated {
        return false;
    }
    match &o.status {
        None => false,
        Some(os) => os.age_nanos <= STATUS_FRESHNESS_NANOS && os.status.world_id == b.world_id && os.status.epoch
            == b.epoch_number && os.status.sequence == b.latest_sequence && opt_text_eq(
            &os.status.latest_snapshot,
            &b.latest_hash,
        ) && opt_text_eq(&os.status.state_hash, &b.latest_state_root) && os.status.compatibility_fingerprint
            == b.fingerprint,
    }
}

/// The peers this device sees agreeing with it (itself first) and, among
/// them, those that could be elected (itself first), where the authority
/// has gone: `observations` is what it knows of each member, in the
/// descriptor's order.
pub fn recovery_view(members: &[MemberEntry], observations: &[MemberObservation], b: &RecoveryBasis) -> (r: (
    Vec<String>,
    Vec<String>,
))
    requires
        observations@.len() == members@.len(),
    ensures
        crate::text::texts_of(r.0@) == seq![b.local_peer@] + picked(members@, observations@, *b, false),
        crate::text::texts_of(r.1@) == seq![b.local_peer@] + picked(members@, observations@, *b, true),
{
    let mut visible: Vec<String> = vec![b.local_peer.clone()];
    let mut candidates: Vec<String> = vec![b.local_peer.clone()];
    let mut i: usize = 0;
    assert(members@.subrange(0, 0) =~= Seq::<MemberEntry>::empty());
    assert(crate::text::texts_of(visible@) =~= seq![b.local_peer@] + Seq::<Seq<char>>::empty());
    assert(crate::text::texts_of(candidates@) =~= seq![b.local_peer@] + Seq::<Seq<char>>::empty());
    while i < members.len()
        invariant
            i <= members@.len(),
            observations@.len() == members@.len(),
            crate::text::texts_of(visible@) == seq![b.local_peer@] + picked(
                members@.subrange(0, i as int),
                observations@.subrange(0, i as int),
                *b,
                false,
            ),
            crate::text::texts_of(candidates@) == seq![b.local_peer@] + picked(
                members@.subrange(0, i as int),
                observations@.subrange(0, i as int),
                *b,
                true,
            ),
        decreases members@.len() - i,
    {
        let m = &members[i];
        let o = &observations[i];
        proof {
            assert(members@.subrange(0, i + 1).drop_last() =~= members@.subrange(0, i as int));
            assert(observations@.subrange(0, i + 1).drop_last() =~= observations@.subrange(0, i as int));
            assert(members@.subrange(0, i + 1).last() == members@[i as int]);
            assert(observations@.subrange(0, i + 1).last() == observations@[i as int]);
        }
        if agrees_exec(m, o, b) {
            let ghost before = visible@;
            visible.push(m.peer_id.clone());
            assert(crate::text::texts_of(visible@) =~= crate::text::texts_of(before).push(m.peer_id@));
            let eligible = m.authority_eligible && match &o.status {
                Some(os) => os.status.authority_eligible,
                None => false,
            };
            if eligible {
                let ghost before_c = candidates@;
                candidates.push(m.peer_id.clone());
                assert(crate::text::texts_of(candidates@) =~= crate::text::texts_of(before_c).push(m.peer_id@));
            }
        }
        i = i + 1;
    }
    assert(members@.subrange(0, members@.len() as int) =~= members@);
    assert(observations@.subrange(0, observations@.len() as int) =~= observations@);
    (visible, candidates)
}

/// What this device knows of a member's confirmation of its authority: it
/// is connected, and the generation and age (nanoseconds) of its last lease
/// acknowledgement, or whether it acknowledged the recovery epoch.
pub struct Confirmation {
    pub authenticated: bool,
    pub lease_ack: Option<(u64, u64, u64)>,
    pub epoch_acked: bool,
}

/// The member confirms the authority's current generation: another
/// unbanned, connected peer with a lease acknowledgement of the generation
/// younger than a lease (or, for a recovery epoch, an acknowledgement of
/// the epoch).
pub open spec fn confirms(m: MemberEntry, c: Confirmation, local: Seq<char>, generation: (u64, u64), recovery: bool) -> bool {
    &&& m.peer_id@ != local
    &&& !m.banned
    &&& c.authenticated
    &&& if recovery {
        c.epoch_acked
    } else {
        c.lease_ack matches Some((epoch, token, age)) && epoch == generation.0 && token == generation.1 && age
            < LEASE_ACK_FRESH_NANOS
    }
}

pub open spec fn confirmations(
    members: Seq<MemberEntry>,
    acks: Seq<Confirmation>,
    local: Seq<char>,
    generation: (u64, u64),
    recovery: bool,
) -> nat
    decreases members.len(),
{
    if members.len() == 0 || acks.len() == 0 {
        0
    } else {
        confirmations(members.drop_last(), acks.drop_last(), local, generation, recovery) + if confirms(
            members.last(),
            acks.last(),
            local,
            generation,
            recovery,
        ) {
            1nat
        } else {
            0nat
        }
    }
}

/// How many peers confirm this device's authority, itself included, for
/// the quorum check: `acks` is what it knows of each member, in the
/// descriptor's order.
pub fn confirmed_count(
    members: &[MemberEntry],
    acks: &[Confirmation],
    local: &String,
    generation: (u64, u64),
    recovery: bool,
) -> (r: usize)
    requires
        acks@.len() == members@.len(),
        members@.len() < usize::MAX,
    ensures
        r == 1 + confirmations(members@, acks@, local@, generation, recovery),
{
    let mut count: usize = 1;
    let mut i: usize = 0;
    assert(members@.subrange(0, 0) =~= Seq::<MemberEntry>::empty());
    while i < members.len()
        invariant
            i <= members@.len(),
            acks@.len() == members@.len(),
            members@.len() < usize::MAX,
            count == 1 + confirmations(members@.subrange(0, i as int), acks@.subrange(0, i as int), local@, generation, recovery),
            count <= i + 1,
        decreases members@.len() - i,
    {
        let m = &members[i];
        let c = &acks[i];
        proof {
            assert(members@.subrange(0, i + 1).drop_last() =~= members@.subrange(0, i as int));
            assert(acks@.subrange(0, i + 1).drop_last() =~= acks@.subrange(0, i as int));
            assert(members@.subrange(0, i + 1).last() == members@[i as int]);
            assert(acks@.subrange(0, i + 1).last() == acks@[i as int]);
        }
        let ok = !(m.peer_id == *local) && !m.banned && c.authenticated && if recovery {
            c.epoch_acked
        } else {
            match c.lease_ack {
                Some((epoch, token, age)) => epoch == generation.0 && token == generation.1 && age < LEASE_ACK_FRESH_NANOS,
                None => false,
            }
        };
        if ok {
            count = count + 1;
        }
        i = i + 1;
    }
    assert(members@.subrange(0, members@.len() as int) =~= members@);
    assert(acks@.subrange(0, acks@.len() as int) =~= acks@);
    count
}

/// Outside a recovery epoch, one more member adds one confirmation exactly
/// when it is another unbanned, connected peer whose last lease
/// acknowledgement names the current generation and is younger than one
/// lease, five seconds; stale or foreign acknowledgements never count.
pub proof fn lemma_only_fresh_lease_acks_confirm(
    members: Seq<MemberEntry>,
    acks: Seq<Confirmation>,
    local: Seq<char>,
    generation: (u64, u64),
    m: MemberEntry,
    c: Confirmation,
)
    requires
        members.len() == acks.len(),
    ensures
        confirmations(members.push(m), acks.push(c), local, generation, false) == confirmations(
            members,
            acks,
            local,
            generation,
            false,
        ) + if m.peer_id@ != local && !m.banned && c.authenticated && c.lease_ack is Some && c.lease_ack->Some_0.0
            == generation.0 && c.lease_ack->Some_0.1 == generation.1 && c.lease_ack->Some_0.2 < 5_000_000_000u64 {
            1nat
        } else {
            0nat
        },
{
    assert(members.push(m).drop_last() =~= members);
    assert(acks.push(c).drop_last() =~= acks);
}

/// In a recovery epoch, one more member adds one confirmation exactly when
/// it is another unbanned, connected peer that acknowledged the epoch;
/// lease acknowledgements play no part.
pub proof fn lemma_recovery_confirmed_by_epoch_acks(
    members: Seq<MemberEntry>,
    acks: Seq<Confirmation>,
    local: Seq<char>,
    generation: (u64, u64),
    m: MemberEntry,
    c: Confirmation,
)
    requires
        members.len() == acks.len(),
    ensures
        confirmations(members.push(m), acks.push(c), local, generation, true) == confirmations(
            members,
            acks,
            local,
            generation,
            true,
        ) + if m.peer_id@ != local && !m.banned && c.authenticated && c.epoch_acked {
            1nat
        } else {
            0nat
        },
{
    assert(members.push(m).drop_last() =~= members);
    assert(acks.push(c).drop_last() =~= acks);
}

/// Outside a recovery epoch, where no member's lease acknowledgement is
/// younger than a lease (five seconds), nobody confirms the authority: the
/// count for the quorum check is the authority alone.
pub proof fn lemma_stale_lease_acks_confirm_nobody(
    members: Seq<MemberEntry>,
    acks: Seq<Confirmation>,
    local: Seq<char>,
    generation: (u64, u64),
)
    requires
        members.len() == acks.len(),
        forall|i: int| 0 <= i < acks.len() ==> (#[trigger] acks[i]).lease_ack is None || acks[i].lease_ack->Some_0.2
            >= 5_000_000_000u64,
    ensures
        confirmations(members, acks, local, generation, false) == 0,
    decreases members.len(),
{
    if members.len() > 0 {
        let front = acks.drop_last();
        assert forall|i: int| 0 <= i < front.len() implies (#[trigger] front[i]).lease_ack is None
            || front[i].lease_ack->Some_0.2 >= 5_000_000_000u64 by {
            assert(front[i] == acks[i]);
        }
        lemma_stale_lease_acks_confirm_nobody(members.drop_last(), front, local, generation);
        assert(acks.last() == acks[acks.len() - 1]);
    }
}

/// What the authority does after counting confirmations.
#[derive(Debug, Clone, Copy, PartialEq, Eq, Structural)]
pub enum AuthorityStep {
    /// A solo world with a quorum again: bring its history back to quorum
    /// mode and clear the permit.
    RestoreQuorum,
    /// Keep the permit alive with the next heartbeat.
    Heartbeat(u64),
    /// No quorum: clear the permit and ask the members for their status.
    LoseQuorum,
}

/// The authority's step: with a quorum, a solo epoch returns to quorum mode
/// and any other epoch advances the permit heartbeat (saturating); without
/// one, the permit is cleared.
pub fn authority_step(has_quorum: bool, mode: EpochMode, heartbeat: u64) -> (r: AuthorityStep)
    ensures
        has_quorum && mode == EpochMode::Solo ==> r == AuthorityStep::RestoreQuorum,
        has_quorum && mode != EpochMode::Solo ==> r == AuthorityStep::Heartbeat(
            if heartbeat == u64::MAX {
                u64::MAX
            } else {
                (heartbeat + 1) as u64
            },
        ),
        !has_quorum ==> r == AuthorityStep::LoseQuorum,
{
    if !has_quorum {
        return AuthorityStep::LoseQuorum;
    }
    if mode == EpochMode::Solo {
        return AuthorityStep::RestoreQuorum;
    }
    AuthorityStep::Heartbeat(heartbeat.saturating_add(1))
}

/// A recovery epoch's durable certificate elected this device for exactly
/// this generation.
pub fn certificate_for_generation(
    target_epoch: u64,
    target_fencing_token: u64,
    candidate: &String,
    generation: (u64, u64),
    local: &String,
) -> (r: bool)
    ensures
        r == (target_epoch == generation.0 && target_fencing_token == generation.1 && candidate@ == local@),
{
    target_epoch == generation.0 && target_fencing_token == generation.1 && *candidate == *local
}


// ---------------------------------------------------------------------------
// Bringing the snapshot and membership up to the leader's epoch
// ---------------------------------------------------------------------------

/// Why a leader's artifacts cannot be brought up to its accepted epoch.
#[derive(Debug, Clone, Copy, PartialEq, Eq, Structural)]
pub enum ArtifactError {
    NotDirectPromotion,
    SnapshotConflict,
    MembershipAhead,
    SnapshotSequenceExhausted,
    MembershipSequenceExhausted,
}

pub open spec fn artifact_error_text(e: ArtifactError, recovery: bool) -> Seq<char> {
    match e {
        ArtifactError::NotDirectPromotion => if recovery {
            "recovery epoch does not directly promote the latest canonical snapshot"@
        } else {
            "accepted authority epoch does not directly promote the latest canonical snapshot"@
        },
        ArtifactError::SnapshotConflict => if recovery {
            "latest snapshot conflicts with the accepted recovery epoch"@
        } else {
            "latest snapshot conflicts with the accepted authority epoch"@
        },
        ArtifactError::MembershipAhead => if recovery {
            "membership is ahead of the accepted recovery epoch"@
        } else {
            "membership is ahead of the accepted authority epoch"@
        },
        ArtifactError::SnapshotSequenceExhausted => "snapshot sequence counter exhausted"@,
        ArtifactError::MembershipSequenceExhausted => "membership sequence counter exhausted"@,
    }
}

impl ArtifactError {
    /// The error's text, for a recovery epoch or an ordinary accepted one.
    pub fn message(&self, recovery: bool) -> (r: &'static str)
        ensures
            r@ == artifact_error_text(*self, recovery),
    {
        match self {
            ArtifactError::NotDirectPromotion => if recovery {
                "recovery epoch does not directly promote the latest canonical snapshot"
            } else {
                "accepted authority epoch does not directly promote the latest canonical snapshot"
            },
            ArtifactError::SnapshotConflict => if recovery {
                "latest snapshot conflicts with the accepted recovery epoch"
            } else {
                "latest snapshot conflicts with the accepted authority epoch"
            },
            ArtifactError::MembershipAhead => if recovery {
                "membership is ahead of the accepted recovery epoch"
            } else {
                "membership is ahead of the accepted authority epoch"
            },
            ArtifactError::SnapshotSequenceExhausted => "snapshot sequence counter exhausted",
            ArtifactError::MembershipSequenceExhausted => "membership sequence counter exhausted",
        }
    }
}

/// The latest canonical snapshot, as the promotion reads it.
pub struct SnapshotHead {
    pub epoch: u64,
    pub sequence: u64,
    pub authority_peer_id: String,
    pub authority_public_key: String,
    pub state_root: String,
}

/// The next value of a counter: one on, saturating for an ordinary epoch,
/// `None` at the end for a recovery epoch.
pub open spec fn bump(value: u64, recovery: bool) -> Option<u64> {
    if value < u64::MAX {
        Some((value + 1) as u64)
    } else if recovery {
        None
    } else {
        Some(u64::MAX)
    }
}

pub open spec fn snapshot_promotion_spec(
    latest: SnapshotHead,
    epoch_number: u64,
    base_state_hash: Seq<char>,
    local_peer: Seq<char>,
    local_key: Seq<char>,
    recovery: bool,
) -> Result<Option<u64>, ArtifactError> {
    if latest.epoch < epoch_number {
        if latest.epoch + 1 != epoch_number || latest.state_root@ != base_state_hash {
            Err(ArtifactError::NotDirectPromotion)
        } else {
            match bump(latest.sequence, recovery) {
                Some(next) => Ok(Some(next)),
                None => Err(ArtifactError::SnapshotSequenceExhausted),
            }
        }
    } else if latest.epoch != epoch_number || latest.authority_peer_id@ != local_peer || latest.authority_public_key@
        != local_key || latest.state_root@ != base_state_hash {
        Err(ArtifactError::SnapshotConflict)
    } else {
        Ok(None)
    }
}

/// Whether the leader must re-sign the latest snapshot under its epoch:
/// where the snapshot is of the epoch just before, with the epoch's base
/// state, it is promoted at the next sequence (`Some`); where it is already
/// this leader's snapshot of this epoch and state, nothing is needed
/// (`None`); anything else conflicts.
pub fn snapshot_promotion(
    latest: &SnapshotHead,
    epoch_number: u64,
    base_state_hash: &String,
    local_peer: &String,
    local_key: &String,
    recovery: bool,
) -> (r: Result<Option<u64>, ArtifactError>)
    ensures
        r == snapshot_promotion_spec(*latest, epoch_number, base_state_hash@, local_peer@, local_key@, recovery),
{
    if latest.epoch < epoch_number {
        if latest.epoch + 1 != epoch_number || !(latest.state_root == *base_state_hash) {
            return Err(ArtifactError::NotDirectPromotion);
        }
        if latest.sequence < u64::MAX {
            return Ok(Some(latest.sequence + 1));
        }
        if recovery {
            return Err(ArtifactError::SnapshotSequenceExhausted);
        }
        return Ok(Some(u64::MAX));
    }
    if latest.epoch != epoch_number || !(latest.authority_peer_id == *local_peer) || !(latest.authority_public_key
        == *local_key) || !(latest.state_root == *base_state_hash) {
        return Err(ArtifactError::SnapshotConflict);
    }
    Ok(None)
}

/// The membership record, as the promotion reads it.
pub struct MembershipHead {
    pub epoch: u64,
    pub sequence: u64,
    pub authority_peer_id: String,
    pub authority_public_key: String,
}

pub open spec fn membership_promotion_spec(
    membership: MembershipHead,
    epoch_number: u64,
    local_peer: Seq<char>,
    local_key: Seq<char>,
    recovery: bool,
) -> Result<Option<u64>, ArtifactError> {
    if membership.epoch > epoch_number {
        Err(ArtifactError::MembershipAhead)
    } else if membership.epoch != epoch_number || membership.authority_peer_id@ != local_peer
        || membership.authority_public_key@ != local_key {
        match bump(membership.sequence, recovery) {
            Some(next) => Ok(Some(next)),
            None => Err(ArtifactError::MembershipSequenceExhausted),
        }
    } else {
        Ok(None)
    }
}

/// Whether the leader must re-sign the membership under its epoch: never
/// where the membership is ahead of it; at the next sequence (`Some`) where
/// it names another epoch or authority; not at all where it is already the
/// leader's of this epoch.
pub fn membership_promotion(
    membership: &MembershipHead,
    epoch_number: u64,
    local_peer: &String,
    local_key: &String,
    recovery: bool,
) -> (r: Result<Option<u64>, ArtifactError>)
    ensures
        r == membership_promotion_spec(*membership, epoch_number, local_peer@, local_key@, recovery),
{
    if membership.epoch > epoch_number {
        return Err(ArtifactError::MembershipAhead);
    }
    if membership.epoch != epoch_number || !(membership.authority_peer_id == *local_peer) || !(
    membership.authority_public_key == *local_key) {
        if membership.sequence < u64::MAX {
            return Ok(Some(membership.sequence + 1));
        }
        if recovery {
            return Err(ArtifactError::MembershipSequenceExhausted);
        }
        return Ok(Some(u64::MAX));
    }
    Ok(None)
}


// ---------------------------------------------------------------------------
// New epochs of the leader
// ---------------------------------------------------------------------------

/// The epoch this device signs after `previous`: same world, this device as
/// authority, both counters one on, in `mode`; `None` where a counter is
/// exhausted.
pub fn successor_epoch(previous: &AuthorityGeneration, local: &LocalIdentity, mode: EpochMode) -> (r: Option<
    AuthorityGeneration,
>)
    ensures
        previous.epoch_number == u64::MAX || previous.fencing_token == u64::MAX ==> r is None,
        previous.epoch_number < u64::MAX && previous.fencing_token < u64::MAX ==> (r matches Some(g) && {
            &&& g.world_id@ == previous.world_id@
            &&& g.authority_peer_id@ == local.peer_id@
            &&& g.authority_public_key@ == local.public_key@
            &&& g.epoch_number == previous.epoch_number + 1
            &&& g.fencing_token == previous.fencing_token + 1
            &&& g.mode == mode
        }),
{
    if previous.epoch_number == u64::MAX || previous.fencing_token == u64::MAX {
        return None;
    }
    Some(
        AuthorityGeneration {
            world_id: previous.world_id.clone(),
            authority_peer_id: local.peer_id.clone(),
            authority_public_key: local.public_key.clone(),
            epoch_number: previous.epoch_number + 1,
            fencing_token: previous.fencing_token + 1,
            mode,
        },
    )
}

/// The reason recorded in an epoch this device promotes on its own.
pub fn promotion_reason(mode: EpochMode) -> (r: &'static str)
    ensures
        mode == EpochMode::Recovery ==> r@ == "automatic crash recovery after durable quorum ballot"@,
        mode != EpochMode::Recovery ==> r@ == "quorum restored after explicit solo history replication"@,
{
    if mode == EpochMode::Recovery {
        "automatic crash recovery after durable quorum ballot"
    } else {
        "quorum restored after explicit solo history replication"
    }
}

/// The solo branch's head, as the refresh reads it.
pub struct SoloBranchHead {
    pub world_id: String,
    pub authority_peer_id: String,
    pub head_snapshot_hash: String,
    pub state_hash: String,
}

/// What refreshing the solo branch does.
#[derive(Debug, Clone, Copy, PartialEq, Eq, Structural)]
pub enum SoloBranchStep {
    /// The branch already ends at the latest snapshot.
    Unchanged,
    /// Move the branch head to the latest snapshot and re-sign it.
    Advance,
}

/// A solo branch belongs to this device in this world, and is advanced to
/// the latest snapshot unless it already ends there; `Err(())` where it is
/// another authority's or another world's.
pub fn solo_branch_step(
    branch: &SoloBranchHead,
    world_id: &String,
    local_peer: &String,
    latest_hash: &String,
    latest_state_root: &String,
) -> (r: Result<SoloBranchStep, ()>)
    ensures
        (branch.authority_peer_id@ != local_peer@ || branch.world_id@ != world_id@) ==> r is Err,
        (branch.authority_peer_id@ == local_peer@ && branch.world_id@ == world_id@) ==> r == Ok::<SoloBranchStep, ()>(
            if branch.head_snapshot_hash@ == latest_hash@ && branch.state_hash@ == latest_state_root@ {
                SoloBranchStep::Unchanged
            } else {
                SoloBranchStep::Advance
            },
        ),
{
    if !(branch.authority_peer_id == *local_peer) || !(branch.world_id == *world_id) {
        return Err(());
    }
    if branch.head_snapshot_hash == *latest_hash && branch.state_hash == *latest_state_root {
        Ok(SoloBranchStep::Unchanged)
    } else {
        Ok(SoloBranchStep::Advance)
    }
}

// ---------------------------------------------------------------------------
// Readiness observations
// ---------------------------------------------------------------------------

/// The status a peer last reported for the world, and how long ago.
pub struct ObservedPeerStatus {
    pub peer_id: String,
    pub age_nanos: u64,
    pub status: PeerStatus,
}

/// The hosting capability a peer last advertised for the world, and how
/// long ago.
pub struct ObservedPeerCapability {
    pub peer_id: String,
    pub age_nanos: u64,
    pub capability: HostCapability,
}

/// The first status observed from `peer`, where it is fresh.
pub open spec fn fresh_status(observed: Seq<ObservedPeerStatus>, peer: Seq<char>) -> Option<PeerStatus>
    decreases observed.len(),
{
    if observed.len() == 0 {
        None
    } else if observed[0].peer_id@ == peer {
        if observed[0].age_nanos <= STATUS_FRESHNESS_NANOS {
            Some(observed[0].status)
        } else {
            None
        }
    } else {
        fresh_status(observed.drop_first(), peer)
    }
}

/// The first capability observed from `peer`, where it is fresh.
pub open spec fn fresh_capability(observed: Seq<ObservedPeerCapability>, peer: Seq<char>) -> Option<HostCapability>
    decreases observed.len(),
{
    if observed.len() == 0 {
        None
    } else if observed[0].peer_id@ == peer {
        if observed[0].age_nanos <= STATUS_FRESHNESS_NANOS {
            Some(observed[0].capability)
        } else {
            None
        }
    } else {
        fresh_capability(observed.drop_first(), peer)
    }
}

/// What this device knows of one member: whether it is connected, and its
/// fresh status and capability.
pub open spec fn observation_of_member(
    m: WorldMember,
    connected: Seq<String>,
    statuses: Seq<ObservedPeerStatus>,
    capabilities: Seq<ObservedPeerCapability>,
) -> PeerReadinessObservation {
    PeerReadinessObservation {
        peer_id: m.peer_id,
        reachable: exists|k: int| 0 <= k < connected.len() && (#[trigger] connected[k])@ == m.peer_id@,
        status: fresh_status(statuses, m.peer_id@),
        capability: fresh_capability(capabilities, m.peer_id@),
    }
}

/// The members a readiness report is about: every unbanned member but this
/// device.
pub open spec fn other_active(members: Seq<WorldMember>, local: Seq<char>) -> Seq<WorldMember> {
    members.filter(|m: WorldMember| m.peer_id@ != local && !m.banned)
}

fn copy_status(s: &PeerStatus) -> (r: PeerStatus)
    ensures
        r == *s,
{
    PeerStatus {
        world_id: s.world_id.clone(),
        epoch: s.epoch,
        sequence: s.sequence,
        latest_snapshot: match &s.latest_snapshot {
            Some(h) => Some(h.clone()),
            None => None,
        },
        state_hash: match &s.state_hash {
            Some(h) => Some(h.clone()),
            None => None,
        },
        compatibility_fingerprint: s.compatibility_fingerprint.clone(),
        authority_eligible: s.authority_eligible,
    }
}

fn copy_capability(c: &HostCapability) -> (r: HostCapability)
    ensures
        r == *c,
{
    HostCapability {
        world_id: c.world_id.clone(),
        compatibility_fingerprint: c.compatibility_fingerprint.clone(),
        runtime: c.runtime,
        server_mods: c.server_mods,
        conflict_free: c.conflict_free,
        recovery_quorum_without_authority: c.recovery_quorum_without_authority,
    }
}

fn find_fresh_status(observed: &[ObservedPeerStatus], peer: &String) -> (r: Option<PeerStatus>)
    ensures
        r == fresh_status(observed@, peer@),
{
    let mut i: usize = 0;
    assert(observed@.subrange(0, observed@.len() as int) =~= observed@);
    while i < observed.len()
        invariant
            i <= observed@.len(),
            fresh_status(observed@, peer@) == fresh_status(observed@.subrange(i as int, observed@.len() as int), peer@),
        decreases observed@.len() - i,
    {
        let ghost rest = observed@.subrange(i as int, observed@.len() as int);
        assert(rest[0] == observed@[i as int]);
        assert(rest.drop_first() =~= observed@.subrange(i + 1, observed@.len() as int));
        if observed[i].peer_id == *peer {
            if observed[i].age_nanos <= STATUS_FRESHNESS_NANOS {
                return Some(copy_status(&observed[i].status));
            }
            return None;
        }
        i = i + 1;
    }
    None
}

fn find_fresh_capability(observed: &[ObservedPeerCapability], peer: &String) -> (r: Option<HostCapability>)
    ensures
        r == fresh_capability(observed@, peer@),
{
    let mut i: usize = 0;
    assert(observed@.subrange(0, observed@.len() as int) =~= observed@);
    while i < observed.len()
        invariant
            i <= observed@.len(),
            fresh_capability(observed@, peer@) == fresh_capability(
                observed@.subrange(i as int, observed@.len() as int),
                peer@,
            ),
        decreases observed@.len() - i,
    {
        let ghost rest = observed@.subrange(i as int, observed@.len() as int);
        assert(rest[0] == observed@[i as int]);
        assert(rest.drop_first() =~= observed@.subrange(i + 1, observed@.len() as int));
        if observed[i].peer_id == *peer {
            if observed[i].age_nanos <= STATUS_FRESHNESS_NANOS {
                return Some(copy_capability(&observed[i].capability));
            }
            return None;
        }
        i = i + 1;
    }
    None
}

/// One observation per unbanned member other than this device, in
/// membership order: whether one of the `connected` peers authenticated as
/// it, and its status and capability where one was observed within
/// `STATUS_FRESHNESS_NANOS`.
pub fn peer_readiness_observations(
    members: &[WorldMember],
    local: &String,
    connected: &[String],
    statuses: &[ObservedPeerStatus],
    capabilities: &[ObservedPeerCapability],
) -> (r: Vec<PeerReadinessObservation>)
    ensures
        r@ == other_active(members@, local@).map_values(
            |m: WorldMember| observation_of_member(m, connected@, statuses@, capabilities@),
        ),
{
    let ghost f = |m: WorldMember| observation_of_member(m, connected@, statuses@, capabilities@);
    let mut out: Vec<PeerReadinessObservation> = Vec::new();
    let mut i: usize = 0;
    while i < members.len()
        invariant
            i <= members@.len(),
            f == (|m: WorldMember| observation_of_member(m, connected@, statuses@, capabilities@)),
            out@ == other_active(members@.subrange(0, i as int), local@).map_values(f),
        decreases members@.len() - i,
    {
        proof {
            reveal(Seq::filter);
            assert(members@.subrange(0, i + 1).drop_last() =~= members@.subrange(0, i as int));
            assert(members@.subrange(0, i + 1).last() == members@[i as int]);
        }
        let m = &members[i];
        if !(m.peer_id == *local) && !m.banned {
            let mut reachable = false;
            let mut k: usize = 0;
            while k < connected.len()
                invariant
                    k <= connected@.len(),
                    reachable == exists|j: int| 0 <= j < k && (#[trigger] connected@[j])@ == m.peer_id@,
                decreases connected@.len() - k,
            {
                if connected[k] == m.peer_id {
                    reachable = true;
                }
                k = k + 1;
            }
            let observation = PeerReadinessObservation {
                peer_id: m.peer_id.clone(),
                reachable,
                status: find_fresh_status(statuses, &m.peer_id),
                capability: find_fresh_capability(capabilities, &m.peer_id),
            };
            out.push(observation);
            proof {
                let pre = other_active(members@.subrange(0, i as int), local@);
                assert(other_active(members@.subrange(0, i + 1), local@) == pre.push(members@[i as int]));
                assert(pre.push(members@[i as int]).map_values(f) =~= pre.map_values(f).push(f(members@[i as int])));
            }
        } else {
            proof {
                let pre = other_active(members@.subrange(0, i as int), local@);
                assert(other_active(members@.subrange(0, i + 1), local@) == pre);
            }
        }
        i = i + 1;
    }
    assert(members@.subrange(0, members@.len() as int) =~= members@);
    out
}

} // verus!
