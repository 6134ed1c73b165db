//! Authority migration: the runtime launch configuration, the published
//! migration status, the manual authority-transfer protocol between two
//! peers, and the decisions of the per-world supervisor that hosts a world
//! on this device. Storage, signatures, processes and timers are the
//! caller's; every decision between them is made here.
use vstd::prelude::*;
use crate::discovery::opt_view;
use crate::invite::{hex_decode, hex_decode_spec};
use crate::provider_runtime::lower_text;
use crate::runtime_layout::RUNTIME_LOCK_SCHEMA_VERSION;
use crate::server_mods::opt_str;
use crate::text::{chars_of, string_from_chars, to_ascii_lower};
use crate::host_readiness::{member_of, EpochMode, WorldMember};

verus! {

pub struct RuntimeLaunchConfig {
    pub java: String,
    pub server_jar: String,
    pub mod_jar: String,
    pub accept_eula: bool,
    pub game_endpoint: Option<String>,
}

pub struct HostOptions {
    pub world: String,
    pub java: String,
    pub server_jar: String,
    pub mod_jar: String,
    pub accept_eula: bool,
}

impl RuntimeLaunchConfig {
    /// The options that host `world` with this configuration.
    pub fn host_options(&self, world: String) -> (r: HostOptions)
        ensures
            r.world@ == world@,
            r.java@ == self.java@,
            r.server_jar@ == self.server_jar@,
            r.mod_jar@ == self.mod_jar@,
            r.accept_eula == self.accept_eula,
    {
        HostOptions {
            world,
            java: self.java.clone(),
            server_jar: self.server_jar.clone(),
            mod_jar: self.mod_jar.clone(),
            accept_eula: self.accept_eula,
        }
    }
}

#[derive(Debug, Clone, Copy, PartialEq, Eq, Structural)]
pub enum MigrationTrigger {
    AutomaticRecovery,
    ManualTransfer,
    WorldWake,
    DirectHost,
}

#[derive(Debug, Clone, Copy, PartialEq, Eq, Structural)]
pub enum MigrationPhase {
    Dormant,
    WaitingForAuthority,
    WaitingForQuorum,
    SelectingSnapshot,
    PreparingRuntime,
    RestoringWorld,
    LaunchingRuntime,
    VerifyingFabric,
    Ready,
    Checkpointing,
    AwaitingTransferAcceptance,
    Sleeping,
    Blocked,
    Failed,
    Superseded,
}

pub struct MigrationStatus {
    pub world_id: String,
    pub authority_peer_id: Option<String>,
    pub epoch: Option<u64>,
    pub fencing_token: Option<u64>,
    pub trigger: Option<MigrationTrigger>,
    pub phase: MigrationPhase,
    pub runtime_ready: bool,
    pub game_endpoint: Option<String>,
    pub snapshot_hash: Option<String>,
    pub failure_reason: Option<String>,
}

pub enum TransferPrepareResult {
    CheckpointRequested,
    Prepared(String),
}

// ---------------------------------------------------------------------------
// Authority generations and transfers
// ---------------------------------------------------------------------------

/// The accepted authority generation of a world.
pub struct AuthorityGeneration {
    pub world_id: String,
    pub authority_peer_id: String,
    pub authority_public_key: String,
    pub epoch_number: u64,
    pub fencing_token: u64,
    pub mode: EpochMode,
}

/// This device's identity.
pub struct LocalIdentity {
    pub peer_id: String,
    pub public_key: String,
}

#[derive(Debug, Clone, Copy, PartialEq, Eq, Structural)]
pub enum TransferPhase {
    Prepared,
    Accepted,
    Committed,
}

/// A manual authority transfer from the current host to a target peer.
pub struct AuthorityTransfer {
    pub world_id: String,
    pub from_peer_id: String,
    pub to_peer_id: String,
    pub base_snapshot_hash: String,
    pub next_epoch: u64,
    pub next_fencing_token: u64,
    pub phase: TransferPhase,
    pub signer_peer_id: String,
}

/// The local device holds the generation: same peer and same key.
pub open spec fn holds_generation(g: AuthorityGeneration, local: LocalIdentity) -> bool {
    g.authority_peer_id@ == local.peer_id@ && g.authority_public_key@ == local.public_key@
}

/// The transfer starts from generation `g`: it is for the same world, from
/// its authority, and names the generation right after it.
pub open spec fn source_generation_spec(t: AuthorityTransfer, g: AuthorityGeneration) -> bool {
    &&& t.next_epoch >= 1
    &&& t.next_fencing_token >= 1
    &&& t.world_id@ == g.world_id@
    &&& t.from_peer_id@ == g.authority_peer_id@
    &&& t.next_epoch - 1 == g.epoch_number
    &&& t.next_fencing_token - 1 == g.fencing_token
}

pub fn transfer_is_source_generation(t: &AuthorityTransfer, g: &AuthorityGeneration) -> (r: bool)
    ensures
        r == source_generation_spec(*t, *g),
{
    if t.next_epoch == 0 || t.next_fencing_token == 0 {
        return false;
    }
    t.world_id == g.world_id && t.from_peer_id == g.authority_peer_id && t.next_epoch - 1 == g.epoch_number
        && t.next_fencing_token - 1 == g.fencing_token
}

/// Generation `g`, held by `local`, is the one a committed transfer
/// created.
pub open spec fn successor_generation_spec(t: AuthorityTransfer, g: AuthorityGeneration, local: Seq<char>) -> bool {
    &&& t.world_id@ == g.world_id@
    &&& t.phase == TransferPhase::Committed
    &&& t.to_peer_id@ == local
    &&& t.to_peer_id@ == g.authority_peer_id@
    &&& t.next_epoch == g.epoch_number
    &&& t.next_fencing_token == g.fencing_token
}

pub fn transfer_is_successor_generation(t: &AuthorityTransfer, g: &AuthorityGeneration, local_peer: &String) -> (r:
    bool)
    ensures
        r == successor_generation_spec(*t, *g, local_peer@),
{
    t.world_id == g.world_id && t.phase == TransferPhase::Committed && t.to_peer_id == *local_peer && t.to_peer_id
        == g.authority_peer_id && t.next_epoch == g.epoch_number && t.next_fencing_token == g.fencing_token
}

/// The two records describe the same transfer, whatever their phases.
pub open spec fn same_transfer_spec(a: AuthorityTransfer, b: AuthorityTransfer) -> bool {
    &&& a.world_id@ == b.world_id@
    &&& a.from_peer_id@ == b.from_peer_id@
    &&& a.to_peer_id@ == b.to_peer_id@
    &&& a.base_snapshot_hash@ == b.base_snapshot_hash@
    &&& a.next_epoch == b.next_epoch
    &&& a.next_fencing_token == b.next_fencing_token
}

/// Why a transfer step is refused.
#[derive(Debug, Clone, Copy, PartialEq, Eq, Structural)]
pub enum TransferError {
    EpochExhausted,
    FencingExhausted,
    TargetIsSelf,
    TargetNotMember,
    TargetIneligible,
    /// The token is not in the phase this step takes, or is for another world.
    WrongPhase,
    /// Only the named participant may take this step.
    WrongParticipant,
    /// The token does not continue the locally durable transfer.
    DifferentTransfer,
    AlreadyCommitted,
    /// The target has not durably accepted the transfer.
    NotAccepted,
    /// The committed transfer no longer extends the accepted generation.
    NoLongerExtends,
    /// Another transfer is already active for this generation.
    AnotherTransferActive,
}

pub fn ensure_same_transfer(a: &AuthorityTransfer, b: &AuthorityTransfer) -> (r: Result<(), TransferError>)
    ensures
        r is Ok <==> same_transfer_spec(*a, *b),
        r is Err ==> r == Err::<(), TransferError>(TransferError::DifferentTransfer),
{
    if a.world_id == b.world_id && a.from_peer_id == b.from_peer_id && a.to_peer_id == b.to_peer_id
        && a.base_snapshot_hash == b.base_snapshot_hash && a.next_epoch == b.next_epoch && a.next_fencing_token
        == b.next_fencing_token {
        Ok(())
    } else {
        Err(TransferError::DifferentTransfer)
    }
}

/// A manual transfer target must be another member that is not banned and
/// may hold authority.
pub fn validate_transfer_target(local_peer: &String, target: &String, members: &Vec<WorldMember>) -> (r: Result<
    (),
    TransferError,
>)
    ensures
        target@ == local_peer@ ==> r == Err::<(), TransferError>(TransferError::TargetIsSelf),
        target@ != local_peer@ ==> match member_of(members@, target@) {
            None => r == Err::<(), TransferError>(TransferError::TargetNotMember),
            Some(m) => if m.banned || !m.authority_eligible {
                r == Err::<(), TransferError>(TransferError::TargetIneligible)
            } else {
                r is Ok
            },
        },
{
    if *target == *local_peer {
        return Err(TransferError::TargetIsSelf);
    }
    let mut i: usize = 0;
    while i < members.len()
        invariant
            i <= members@.len(),
            target@ != local_peer@,
            crate::host_readiness::member_index(members@, target@, 0) == crate::host_readiness::member_index(
                members@,
                target@,
                i as int,
            ),
        decreases members@.len() - i,
    {
        if members[i].peer_id == *target {
            if members[i].banned || !members[i].authority_eligible {
                return Err(TransferError::TargetIneligible);
            }
            return Ok(());
        }
        i = i + 1;
    }
    Err(TransferError::TargetNotMember)
}

/// The unsigned transfer that hands generation `g` of `world` from the local
/// host to `target`, based on the snapshot `base_snapshot_hash`.
pub fn prepared_transfer(
    world: &String,
    local: &LocalIdentity,
    target: &String,
    g: &AuthorityGeneration,
    base_snapshot_hash: &String,
) -> (r: Result<AuthorityTransfer, TransferError>)
    ensures
        g.epoch_number == u64::MAX ==> r == Err::<AuthorityTransfer, TransferError>(TransferError::EpochExhausted),
        g.epoch_number < u64::MAX && g.fencing_token == u64::MAX ==> r == Err::<AuthorityTransfer, TransferError>(
            TransferError::FencingExhausted,
        ),
        g.epoch_number < u64::MAX && g.fencing_token < u64::MAX ==> (r matches Ok(t) && {
            &&& t.world_id@ == world@
            &&& t.from_peer_id@ == local.peer_id@
            &&& t.to_peer_id@ == target@
            &&& t.base_snapshot_hash@ == base_snapshot_hash@
            &&& t.next_epoch == g.epoch_number + 1
            &&& t.next_fencing_token == g.fencing_token + 1
            &&& t.phase == TransferPhase::Prepared
            &&& t.signer_peer_id@ == local.peer_id@
        }),
{
    if g.epoch_number == u64::MAX {
        return Err(TransferError::EpochExhausted);
    }
    if g.fencing_token == u64::MAX {
        return Err(TransferError::FencingExhausted);
    }
    Ok(AuthorityTransfer {
        world_id: world.clone(),
        from_peer_id: local.peer_id.clone(),
        to_peer_id: target.clone(),
        base_snapshot_hash: base_snapshot_hash.clone(),
        next_epoch: g.epoch_number + 1,
        next_fencing_token: g.fencing_token + 1,
        phase: TransferPhase::Prepared,
        signer_peer_id: local.peer_id.clone(),
    })
}

/// A transfer prepared by the host of generation `g` in `g`'s world starts
/// from `g`.
pub proof fn lemma_prepared_transfer_starts_from_its_generation(t: AuthorityTransfer, g: AuthorityGeneration)
    requires
        t.world_id@ == g.world_id@,
        t.from_peer_id@ == g.authority_peer_id@,
        t.next_epoch == g.epoch_number + 1,
        t.next_fencing_token == g.fencing_token + 1,
    ensures
        source_generation_spec(t, g),
{
}

fn with_phase(t: &AuthorityTransfer, phase: TransferPhase, signer: &String) -> (r: AuthorityTransfer)
    ensures
        same_transfer_spec(r, *t),
        r.phase == phase,
        r.signer_peer_id@ == signer@,
{
    AuthorityTransfer {
        world_id: t.world_id.clone(),
        from_peer_id: t.from_peer_id.clone(),
        to_peer_id: t.to_peer_id.clone(),
        base_snapshot_hash: t.base_snapshot_hash.clone(),
        next_epoch: t.next_epoch,
        next_fencing_token: t.next_fencing_token,
        phase,
        signer_peer_id: signer.clone(),
    }
}

/// What a transfer step asks the caller to do.
pub enum TransferStep {
    /// The step was already taken: hand back the durable record.
    ReturnExisting,
    /// Persist the given record first, then this new record, signed by the
    /// local peer.
    Record { given: AuthorityTransfer, next: AuthorityTransfer },
}

/// The token of a step must be for this world and in the phase the step
/// takes.
pub fn check_token(t: &AuthorityTransfer, world: &String, phase: TransferPhase) -> (r: Result<(), TransferError>)
    ensures
        r is Ok <==> t.world_id@ == world@ && t.phase == phase,
        r is Err ==> r == Err::<(), TransferError>(TransferError::WrongPhase),
{
    if t.world_id == *world && t.phase == phase {
        Ok(())
    } else {
        Err(TransferError::WrongPhase)
    }
}

/// The target accepts a prepared transfer (its record already validated
/// against the accepted generation).
pub fn accept_step(prepared: AuthorityTransfer, local_peer: &String, existing: Option<&AuthorityTransfer>) -> (r:
    Result<TransferStep, TransferError>)
    requires
        prepared.phase == TransferPhase::Prepared,
    ensures
        prepared.to_peer_id@ != local_peer@ ==> r == Err::<TransferStep, TransferError>(
            TransferError::WrongParticipant,
        ),
        prepared.to_peer_id@ == local_peer@ ==> match existing {
            Some(e) => if !same_transfer_spec(*e, prepared) {
                r == Err::<TransferStep, TransferError>(TransferError::DifferentTransfer)
            } else if e.phase == TransferPhase::Accepted {
                r matches Ok(TransferStep::ReturnExisting)
            } else if e.phase == TransferPhase::Committed {
                r == Err::<TransferStep, TransferError>(TransferError::AlreadyCommitted)
            } else {
                r matches Ok(TransferStep::Record { given, next }) && same_transfer_spec(given, prepared)
                    && given.phase == prepared.phase && same_transfer_spec(next, prepared) && next.phase
                    == TransferPhase::Accepted && next.signer_peer_id@ == local_peer@
            },
            None => r matches Ok(TransferStep::Record { given, next }) && same_transfer_spec(given, prepared)
                && given.phase == prepared.phase && same_transfer_spec(next, prepared) && next.phase
                == TransferPhase::Accepted && next.signer_peer_id@ == local_peer@,
        },
{
    if !(prepared.to_peer_id == *local_peer) {
        return Err(TransferError::WrongParticipant);
    }
    match existing {
        Some(e) => {
            ensure_same_transfer(e, &prepared)?;
            match e.phase {
                TransferPhase::Prepared => {},
                TransferPhase::Accepted => {
                    return Ok(TransferStep::ReturnExisting);
                },
                TransferPhase::Committed => {
                    return Err(TransferError::AlreadyCommitted);
                },
            }
        },
        None => {},
    }
    let next = with_phase(&prepared, TransferPhase::Accepted, local_peer);
    let given = with_phase(&prepared, prepared.phase, &prepared.signer_peer_id);
    Ok(TransferStep::Record { given, next })
}

/// The source host commits an accepted transfer (its record already
/// validated against the accepted generation).
pub fn commit_step(accepted: AuthorityTransfer, local_peer: &String, existing: Option<&AuthorityTransfer>) -> (r:
    Result<TransferStep, TransferError>)
    requires
        accepted.phase == TransferPhase::Accepted,
    ensures
        accepted.from_peer_id@ != local_peer@ ==> r == Err::<TransferStep, TransferError>(
            TransferError::WrongParticipant,
        ),
        accepted.from_peer_id@ == local_peer@ ==> match existing {
            Some(e) => if !same_transfer_spec(*e, accepted) {
                r == Err::<TransferStep, TransferError>(TransferError::DifferentTransfer)
            } else if e.phase == TransferPhase::Committed {
                r matches Ok(TransferStep::ReturnExisting)
            } else {
                r matches Ok(TransferStep::Record { given, next }) && same_transfer_spec(given, accepted)
                    && given.phase == accepted.phase && same_transfer_spec(next, accepted) && next.phase
                    == TransferPhase::Committed && next.signer_peer_id@ == local_peer@
            },
            None => r matches Ok(TransferStep::Record { given, next }) && same_transfer_spec(given, accepted)
                && given.phase == accepted.phase && same_transfer_spec(next, accepted) && next.phase
                == TransferPhase::Committed && next.signer_peer_id@ == local_peer@,
        },
{
    if !(accepted.from_peer_id == *local_peer) {
        return Err(TransferError::WrongParticipant);
    }
    match existing {
        Some(e) => {
            ensure_same_transfer(e, &accepted)?;
            if e.phase == TransferPhase::Committed {
                return Ok(TransferStep::ReturnExisting);
            }
        },
        None => {},
    }
    let next = with_phase(&accepted, TransferPhase::Committed, local_peer);
    let given = with_phase(&accepted, accepted.phase, &accepted.signer_peer_id);
    Ok(TransferStep::Record { given, next })
}

/// The generation a committed transfer activates on its target.
pub open spec fn activated_generation(committed: AuthorityTransfer, local: LocalIdentity, g: AuthorityGeneration) -> bool {
    &&& g.world_id@ == committed.world_id@
    &&& g.authority_peer_id@ == local.peer_id@
    &&& g.authority_public_key@ == local.public_key@
    &&& g.epoch_number == committed.next_epoch
    &&& g.fencing_token == committed.next_fencing_token
    &&& g.mode == EpochMode::Quorum
}

/// The target activates a committed transfer (its record already validated):
/// the durable record must not be merely prepared, and the transfer must
/// still extend the accepted generation by exactly one. The result is the
/// new generation, to be signed, stored and announced once the target has
/// shown it holds the transfer's base snapshot.
pub fn activate_step(
    committed: &AuthorityTransfer,
    local: &LocalIdentity,
    existing: Option<&AuthorityTransfer>,
    current: &AuthorityGeneration,
) -> (r: Result<AuthorityGeneration, TransferError>)
    requires
        committed.phase == TransferPhase::Committed,
    ensures
        committed.to_peer_id@ != local.peer_id@ ==> r == Err::<AuthorityGeneration, TransferError>(
            TransferError::WrongParticipant,
        ),
        committed.to_peer_id@ == local.peer_id@ ==> (existing matches Some(e) ==> (!same_transfer_spec(*e, *committed)
            ==> r == Err::<AuthorityGeneration, TransferError>(TransferError::DifferentTransfer))),
        committed.to_peer_id@ == local.peer_id@ ==> (existing matches Some(e) ==> (same_transfer_spec(*e, *committed)
            && e.phase == TransferPhase::Prepared ==> r == Err::<AuthorityGeneration, TransferError>(
            TransferError::NotAccepted,
        ))),
        r matches Ok(g) ==> {
            &&& committed.to_peer_id@ == local.peer_id@
            &&& current.authority_peer_id@ == committed.from_peer_id@
            &&& current.epoch_number < u64::MAX && committed.next_epoch == current.epoch_number + 1
            &&& current.fencing_token < u64::MAX && committed.next_fencing_token == current.fencing_token + 1
            &&& activated_generation(*committed, *local, g)
        },
        committed.to_peer_id@ == local.peer_id@ && (existing matches Some(e) ==> same_transfer_spec(*e, *committed)
            && e.phase != TransferPhase::Prepared) ==> (r is Ok <==> (current.authority_peer_id@
            == committed.from_peer_id@ && current.epoch_number < u64::MAX && committed.next_epoch
            == current.epoch_number + 1 && current.fencing_token < u64::MAX && committed.next_fencing_token
            == current.fencing_token + 1)),
{
    if !(committed.to_peer_id == local.peer_id) {
        return Err(TransferError::WrongParticipant);
    }
    match existing {
        Some(e) => {
            ensure_same_transfer(e, committed)?;
            if e.phase == TransferPhase::Prepared {
                return Err(TransferError::NotAccepted);
            }
        },
        None => {},
    }
    if !(current.authority_peer_id == committed.from_peer_id) || current.epoch_number.saturating_add(1)
        != committed.next_epoch || current.fencing_token.saturating_add(1) != committed.next_fencing_token
        || current.epoch_number == u64::MAX || current.fencing_token == u64::MAX {
        return Err(TransferError::NoLongerExtends);
    }
    Ok(AuthorityGeneration {
        world_id: committed.world_id.clone(),
        authority_peer_id: local.peer_id.clone(),
        authority_public_key: local.public_key.clone(),
        epoch_number: committed.next_epoch,
        fencing_token: committed.next_fencing_token,
        mode: EpochMode::Quorum,
    })
}

/// The generation that activating a committed transfer creates is
/// recognised, on its target, as that transfer's successor generation, and
/// it follows the generation the transfer started from by exactly one.
pub proof fn lemma_activated_generation_succeeds_the_source(
    committed: AuthorityTransfer,
    local: LocalIdentity,
    source: AuthorityGeneration,
    next: AuthorityGeneration,
)
    requires
        committed.phase == TransferPhase::Committed,
        committed.to_peer_id@ == local.peer_id@,
        source_generation_spec(committed, source),
        activated_generation(committed, local, next),
    ensures
        successor_generation_spec(committed, next, local.peer_id@),
        next.epoch_number == source.epoch_number + 1,
        next.fencing_token == source.fencing_token + 1,
        !source_generation_spec(committed, next),
{
}

/// How this host came to hold its generation.
pub fn infer_trigger(g: &AuthorityGeneration, transfer: Option<&AuthorityTransfer>, local_peer: &String) -> (r:
    MigrationTrigger)
    ensures
        g.mode == EpochMode::Recovery ==> r == MigrationTrigger::AutomaticRecovery,
        g.mode != EpochMode::Recovery && (transfer matches Some(t) && successor_generation_spec(*t, *g, local_peer@))
            ==> r == MigrationTrigger::ManualTransfer,
        g.mode != EpochMode::Recovery && !(transfer matches Some(t) && successor_generation_spec(*t, *g, local_peer@))
            ==> r == MigrationTrigger::DirectHost,
{
    if g.mode == EpochMode::Recovery {
        return MigrationTrigger::AutomaticRecovery;
    }
    match transfer {
        Some(t) => {
            if transfer_is_successor_generation(t, g, local_peer) {
                return MigrationTrigger::ManualTransfer;
            }
        },
        None => {},
    }
    MigrationTrigger::DirectHost
}


/// What a sleeping world's signed record pins.
pub struct SleepFacts {
    pub latest_snapshot_hash: String,
    pub epoch: u64,
    pub fencing_token: u64,
}

/// What preparing a manual transfer asks the caller to do.
#[derive(Debug, Clone, Copy, PartialEq, Eq, Structural)]
pub enum PrepareStep {
    /// The same transfer is already prepared: hand it out again.
    ReturnExisting,
    /// The world sleeps on the latest checkpoint: prepare and store the
    /// transfer now.
    PrepareNow,
    /// The world is running: ask the runtime for a final checkpoint first.
    RequestCheckpoint,
}

/// The host decides how to prepare a transfer to `target` (its generation
/// held and the target validated): an active transfer of this generation
/// must be the same prepared one; a sleeping world must sleep on exactly
/// the current generation and latest snapshot.
pub fn prepare_step(
    local_peer: &String,
    target: &String,
    active: Option<&AuthorityTransfer>,
    sleep: Option<&SleepFacts>,
    current: &AuthorityGeneration,
    latest_snapshot_hash: &String,
) -> (r: Result<PrepareStep, TransferError>)
    ensures
        active matches Some(t) ==> (if t.from_peer_id@ == local_peer@ && t.to_peer_id@ == target@ && t.phase
            == TransferPhase::Prepared {
            r == Ok::<PrepareStep, TransferError>(PrepareStep::ReturnExisting)
        } else {
            r == Err::<PrepareStep, TransferError>(TransferError::AnotherTransferActive)
        }),
        active is None ==> match sleep {
            Some(f) => if f.latest_snapshot_hash@ == latest_snapshot_hash@ && f.epoch == current.epoch_number
                && f.fencing_token == current.fencing_token {
                r == Ok::<PrepareStep, TransferError>(PrepareStep::PrepareNow)
            } else {
                r == Err::<PrepareStep, TransferError>(TransferError::NoLongerExtends)
            },
            None => r == Ok::<PrepareStep, TransferError>(PrepareStep::RequestCheckpoint),
        },
{
    match active {
        Some(t) => {
            if t.from_peer_id == *local_peer && t.to_peer_id == *target && t.phase == TransferPhase::Prepared {
                return Ok(PrepareStep::ReturnExisting);
            }
            return Err(TransferError::AnotherTransferActive);
        },
        None => {},
    }
    match sleep {
        Some(f) => {
            if f.latest_snapshot_hash == *latest_snapshot_hash && f.epoch == current.epoch_number && f.fencing_token
                == current.fencing_token {
                Ok(PrepareStep::PrepareNow)
            } else {
                Err(TransferError::NoLongerExtends)
            }
        },
        None => Ok(PrepareStep::RequestCheckpoint),
    }
}

/// A peer adopts the generation that a committed transfer created only
/// where it exactly extends the transfer and the current generation:
/// same participants, the transfer's epoch and fencing token, one past the
/// current ones, and chained to the current generation's hash.
pub open spec fn observed_epoch_ok(
    next: AuthorityGeneration,
    chained: bool,
    current: AuthorityGeneration,
    t: AuthorityTransfer,
) -> bool {
    &&& t.phase == TransferPhase::Committed
    &&& t.from_peer_id@ == current.authority_peer_id@
    &&& t.to_peer_id@ == next.authority_peer_id@
    &&& t.next_epoch == next.epoch_number
    &&& t.next_fencing_token == next.fencing_token
    &&& current.epoch_number < u64::MAX && next.epoch_number == current.epoch_number + 1
    &&& current.fencing_token < u64::MAX && next.fencing_token == current.fencing_token + 1
    &&& chained
}

/// Checks an announced generation against the committed transfer;
/// `chained` tells whether it names the current generation's hash as its
/// predecessor.
pub fn check_observed_epoch(
    next: &AuthorityGeneration,
    chained: bool,
    current: &AuthorityGeneration,
    t: &AuthorityTransfer,
) -> (r: Result<(), TransferError>)
    ensures
        r is Ok <==> observed_epoch_ok(*next, chained, *current, *t),
        r is Err ==> r == Err::<(), TransferError>(TransferError::NoLongerExtends),
{
    if t.phase != TransferPhase::Committed || !(t.from_peer_id == current.authority_peer_id) || !(t.to_peer_id
        == next.authority_peer_id) || t.next_epoch != next.epoch_number || t.next_fencing_token
        != next.fencing_token || current.epoch_number == u64::MAX || next.epoch_number != current.epoch_number + 1
        || current.fencing_token == u64::MAX || next.fencing_token != current.fencing_token + 1 || !chained {
        return Err(TransferError::NoLongerExtends);
    }
    Ok(())
}

// ---------------------------------------------------------------------------
// Hosting a world on this device
// ---------------------------------------------------------------------------

/// Whether this device still holds exactly the generation it started
/// hosting under.
pub open spec fn generation_unchanged_spec(
    current: AuthorityGeneration,
    expected: AuthorityGeneration,
    local: LocalIdentity,
) -> bool {
    current.epoch_number == expected.epoch_number && current.fencing_token == expected.fencing_token
        && holds_generation(current, local)
}

pub fn generation_unchanged(current: &AuthorityGeneration, expected: &AuthorityGeneration, local: &LocalIdentity) -> (r:
    bool)
    ensures
        r == generation_unchanged_spec(*current, *expected, *local),
{
    current.epoch_number == expected.epoch_number && current.fencing_token == expected.fencing_token
        && current.authority_peer_id == local.peer_id && current.authority_public_key == local.public_key
}

/// How the local peer stands in the world's membership.
#[derive(Debug, Clone, Copy, PartialEq, Eq, Structural)]
pub struct MemberStanding {
    pub banned: bool,
    pub authority_eligible: bool,
    /// The membership records this device's public key for it.
    pub key_matches: bool,
}

#[derive(Debug, Clone, Copy, PartialEq, Eq, Structural)]
pub enum SleepState {
    Awake,
    Sleeping,
    /// The sleep record could not be read or verified.
    Unreadable,
}

/// What the supervisor of one world observed on this tick.
#[derive(Debug, Clone, Copy, PartialEq, Eq, Structural)]
pub struct SupervisorObservation {
    pub config_available: bool,
    /// This device has an active outbound transfer for the current
    /// generation.
    pub outbound_transfer: bool,
    pub sleep: SleepState,
    pub wake_requested: bool,
    pub active_members: usize,
    /// `None` where the local peer is not a member.
    pub local_member: Option<MemberStanding>,
    /// `None` where no generation is accepted; else whether this device
    /// holds it.
    pub holds_generation: Option<bool>,
}

/// Why the supervisor publishes a blocked or waiting status.
#[derive(Debug, Clone, Copy, PartialEq, Eq, Structural)]
pub enum SupervisorReason {
    /// The runtime configuration could not be loaded; its error is the
    /// reason.
    ConfigUnavailable,
    MultiMemberWake,
    /// The sleep record is unreadable; its error completes the reason.
    SleepUnreadable,
    NotMember,
    NotEligible,
    NoGeneration,
}

impl SupervisorReason {
    pub fn message(&self) -> (r: String)
        ensures
            self is ConfigUnavailable ==> r@ == "runtime configuration is unavailable"@,
            self is MultiMemberWake ==> r@ == "multi-member wake requires a quorum-backed authority transition; unsafe solo wake is not automatic"@,
            self is SleepUnreadable ==> r@ == "sleep state is unreadable or corrupt; authority launch is blocked"@,
            self is NotMember ==> r@ == "local peer is no longer a world member"@,
            self is NotEligible ==> r@ == "local peer is not authority eligible"@,
            self is NoGeneration ==> r@ == "no accepted authority epoch is available"@,
    {
        match self {
            SupervisorReason::ConfigUnavailable => String::from_str("runtime configuration is unavailable"),
            SupervisorReason::MultiMemberWake => String::from_str(
                "multi-member wake requires a quorum-backed authority transition; unsafe solo wake is not automatic",
            ),
            SupervisorReason::SleepUnreadable => String::from_str(
                "sleep state is unreadable or corrupt; authority launch is blocked",
            ),
            SupervisorReason::NotMember => String::from_str("local peer is no longer a world member"),
            SupervisorReason::NotEligible => String::from_str("local peer is not authority eligible"),
            SupervisorReason::NoGeneration => String::from_str("no accepted authority epoch is available"),
        }
    }
}

/// How long the supervisor waits before its next tick.
#[derive(Debug, Clone, Copy, PartialEq, Eq, Structural)]
pub enum Pause {
    /// The short supervisor poll.
    Poll,
    /// One second.
    Second,
}

/// What the supervisor does on this tick.
#[derive(Debug, Clone, Copy, PartialEq, Eq, Structural)]
pub enum SupervisorAction {
    /// Publish this status, then pause.
    Publish {
        trigger: Option<MigrationTrigger>,
        phase: MigrationPhase,
        reason: Option<SupervisorReason>,
        pause: Pause,
    },
    /// Wake the sleeping solo world: take the hosting slot and host it.
    HostAfterWake,
    /// Wait until launching is safe, then take the hosting slot and host.
    HostWhenSafe,
}

pub open spec fn publish(
    trigger: Option<MigrationTrigger>,
    phase: MigrationPhase,
    reason: Option<SupervisorReason>,
    pause: Pause,
) -> SupervisorAction {
    SupervisorAction::Publish { trigger, phase, reason, pause }
}

/// The supervisor's decision for one tick.
pub open spec fn supervisor_spec(o: SupervisorObservation) -> SupervisorAction {
    if !o.config_available {
        publish(None, MigrationPhase::Blocked, Some(SupervisorReason::ConfigUnavailable), Pause::Second)
    } else if o.outbound_transfer {
        publish(Some(MigrationTrigger::ManualTransfer), MigrationPhase::AwaitingTransferAcceptance, None, Pause::Poll)
    } else if o.sleep == SleepState::Sleeping {
        if !o.wake_requested {
            publish(None, MigrationPhase::Sleeping, None, Pause::Poll)
        } else if o.active_members > 1 {
            publish(
                Some(MigrationTrigger::WorldWake),
                MigrationPhase::Blocked,
                Some(SupervisorReason::MultiMemberWake),
                Pause::Second,
            )
        } else {
            SupervisorAction::HostAfterWake
        }
    } else if o.sleep == SleepState::Unreadable {
        publish(None, MigrationPhase::Blocked, Some(SupervisorReason::SleepUnreadable), Pause::Second)
    } else {
        match o.local_member {
            None => publish(None, MigrationPhase::WaitingForAuthority, Some(SupervisorReason::NotMember), Pause::Second),
            Some(m) => if m.banned || !m.authority_eligible || !m.key_matches {
                publish(None, MigrationPhase::Blocked, Some(SupervisorReason::NotEligible), Pause::Second)
            } else {
                match o.holds_generation {
                    None => publish(
                        None,
                        MigrationPhase::WaitingForAuthority,
                        Some(SupervisorReason::NoGeneration),
                        Pause::Poll,
                    ),
                    Some(false) => publish(None, MigrationPhase::WaitingForAuthority, None, Pause::Poll),
                    Some(true) => SupervisorAction::HostWhenSafe,
                }
            },
        }
    }
}

/// One tick of the supervisor that hosts a world on this device.
pub fn supervisor_step(o: &SupervisorObservation) -> (r: SupervisorAction)
    ensures
        r == supervisor_spec(*o),
{
    if !o.config_available {
        return SupervisorAction::Publish {
            trigger: None,
            phase: MigrationPhase::Blocked,
            reason: Some(SupervisorReason::ConfigUnavailable),
            pause: Pause::Second,
        };
    }
    if o.outbound_transfer {
        return SupervisorAction::Publish {
            trigger: Some(MigrationTrigger::ManualTransfer),
            phase: MigrationPhase::AwaitingTransferAcceptance,
            reason: None,
            pause: Pause::Poll,
        };
    }
    match o.sleep {
        SleepState::Sleeping => {
            if !o.wake_requested {
                return SupervisorAction::Publish {
                    trigger: None,
                    phase: MigrationPhase::Sleeping,
                    reason: None,
                    pause: Pause::Poll,
                };
            }
            if o.active_members > 1 {
                return SupervisorAction::Publish {
                    trigger: Some(MigrationTrigger::WorldWake),
                    phase: MigrationPhase::Blocked,
                    reason: Some(SupervisorReason::MultiMemberWake),
                    pause: Pause::Second,
                };
            }
            return SupervisorAction::HostAfterWake;
        },
        SleepState::Unreadable => {
            return SupervisorAction::Publish {
                trigger: None,
                phase: MigrationPhase::Blocked,
                reason: Some(SupervisorReason::SleepUnreadable),
                pause: Pause::Second,
            };
        },
        SleepState::Awake => {},
    }
    match o.local_member {
        None => SupervisorAction::Publish {
            trigger: None,
            phase: MigrationPhase::WaitingForAuthority,
            reason: Some(SupervisorReason::NotMember),
            pause: Pause::Second,
        },
        Some(m) => {
            if m.banned || !m.authority_eligible || !m.key_matches {
                return SupervisorAction::Publish {
                    trigger: None,
                    phase: MigrationPhase::Blocked,
                    reason: Some(SupervisorReason::NotEligible),
                    pause: Pause::Second,
                };
            }
            match o.holds_generation {
                None => SupervisorAction::Publish {
                    trigger: None,
                    phase: MigrationPhase::WaitingForAuthority,
                    reason: Some(SupervisorReason::NoGeneration),
                    pause: Pause::Poll,
                },
                Some(false) => SupervisorAction::Publish {
                    trigger: None,
                    phase: MigrationPhase::WaitingForAuthority,
                    reason: None,
                    pause: Pause::Poll,
                },
                Some(true) => SupervisorAction::HostWhenSafe,
            }
        },
    }
}

/// The supervisor hosts a world only with its configuration, without an
/// outbound transfer pending, and either to wake a sleeping world of at
/// most one active member on request, or, for an awake world, as an
/// eligible member holding the accepted generation with its own key.
pub proof fn lemma_supervisor_hosts_only_when_entitled(o: SupervisorObservation)
    ensures
        supervisor_spec(o) == SupervisorAction::HostAfterWake ==> o.config_available && !o.outbound_transfer
            && o.sleep == SleepState::Sleeping && o.wake_requested && o.active_members <= 1,
        supervisor_spec(o) == SupervisorAction::HostWhenSafe ==> {
            &&& o.config_available
            &&& !o.outbound_transfer
            &&& o.sleep == SleepState::Awake
            &&& o.local_member matches Some(m) && !m.banned && m.authority_eligible && m.key_matches
            &&& o.holds_generation == Some(true)
        },
{
}

/// The next step while waiting to launch a world with several active
/// members.
#[derive(Debug, Clone, Copy, PartialEq, Eq, Structural)]
pub enum LaunchWait {
    LaunchNow,
    /// The generation moved or a transfer started: give up this attempt.
    Abort,
    KeepWaiting,
}

/// A world with at most one active member launches at once; otherwise the
/// launch waits for a live authority permit of the unchanged generation,
/// and gives up when the generation changes or an outbound transfer starts.
pub fn launch_wait_step(active_members: usize, generation_unchanged: bool, outbound_transfer: bool, permit_live: bool) -> (r:
    LaunchWait)
    ensures
        active_members <= 1 ==> r == LaunchWait::LaunchNow,
        active_members > 1 && (!generation_unchanged || outbound_transfer) ==> r == LaunchWait::Abort,
        active_members > 1 && generation_unchanged && !outbound_transfer ==> r == (if permit_live {
            LaunchWait::LaunchNow
        } else {
            LaunchWait::KeepWaiting
        }),
{
    if active_members <= 1 {
        return LaunchWait::LaunchNow;
    }
    if !generation_unchanged || outbound_transfer {
        return LaunchWait::Abort;
    }
    if permit_live {
        LaunchWait::LaunchNow
    } else {
        LaunchWait::KeepWaiting
    }
}

/// Why a direct launch is refused.
#[derive(Debug, Clone, Copy, PartialEq, Eq, Structural)]
pub enum LaunchError {
    EulaNotAccepted,
    MultiMemberSleeping,
    NotAuthority,
}

impl LaunchError {
    pub fn message(&self) -> (r: String)
        ensures
            self is EulaNotAccepted ==> r@ == "Minecraft server EULA acceptance is required; configure the runtime only after reviewing Mojang's EULA"@,
            self is MultiMemberSleeping ==> r@ == "multi-member sleeping worlds must be woken through the migration supervisor"@,
            self is NotAuthority ==> r@ == "local peer does not hold the accepted authority generation"@,
    {
        match self {
            LaunchError::EulaNotAccepted => String::from_str(
                "Minecraft server EULA acceptance is required; configure the runtime only after reviewing Mojang's EULA",
            ),
            LaunchError::MultiMemberSleeping => String::from_str(
                "multi-member sleeping worlds must be woken through the migration supervisor",
            ),
            LaunchError::NotAuthority => String::from_str("local peer does not hold the accepted authority generation"),
        }
    }
}

/// Whether an explicit launch may proceed and whether it must first wait
/// for launch safety: a multi-member world must be awake and held by this
/// device.
pub fn direct_launch_gate(active_members: usize, sleeping: bool, holds_generation: bool) -> (r: Result<bool, LaunchError>)
    ensures
        active_members <= 1 ==> r == Ok::<bool, LaunchError>(false),
        active_members > 1 && sleeping ==> r == Err::<bool, LaunchError>(LaunchError::MultiMemberSleeping),
        active_members > 1 && !sleeping && !holds_generation ==> r == Err::<bool, LaunchError>(LaunchError::NotAuthority),
        active_members > 1 && !sleeping && holds_generation ==> r == Ok::<bool, LaunchError>(true),
{
    if active_members <= 1 {
        return Ok(false);
    }
    if sleeping {
        return Err(LaunchError::MultiMemberSleeping);
    }
    if !holds_generation {
        return Err(LaunchError::NotAuthority);
    }
    Ok(true)
}

/// A runtime is never launched without the EULA accepted.
pub fn check_eula(options: &HostOptions) -> (r: Result<(), LaunchError>)
    ensures
        r is Ok <==> options.accept_eula,
        r is Err ==> r == Err::<(), LaunchError>(LaunchError::EulaNotAccepted),
{
    if options.accept_eula {
        Ok(())
    } else {
        Err(LaunchError::EulaNotAccepted)
    }
}

/// What the running server's state asks for.
#[derive(Debug, Clone, Copy, PartialEq, Eq, Structural)]
pub enum RuntimeExitStep {
    /// The server stopped cleanly: commit and sleep.
    Sleep,
    /// The server exited with a failure.
    Failed,
    /// The generation moved under the running server.
    Superseded,
    /// Run the safe-stop save barrier; on success the world sleeps.
    SafeStop,
    /// Validate the target, run the transfer save barrier, then hand over.
    Transfer,
    KeepRunning,
}

/// One check of a running authority runtime: an exit ends it, a moved
/// generation supersedes it, then a stop request, then a transfer request.
pub fn runtime_exit_step(
    exited: Option<bool>,
    generation_unchanged: bool,
    stop_requested: bool,
    transfer_requested: bool,
) -> (r: RuntimeExitStep)
    ensures
        exited == Some(true) ==> r == RuntimeExitStep::Sleep,
        exited == Some(false) ==> r == RuntimeExitStep::Failed,
        exited is None && !generation_unchanged ==> r == RuntimeExitStep::Superseded,
        exited is None && generation_unchanged && stop_requested ==> r == RuntimeExitStep::SafeStop,
        exited is None && generation_unchanged && !stop_requested && transfer_requested ==> r
            == RuntimeExitStep::Transfer,
        exited is None && generation_unchanged && !stop_requested && !transfer_requested ==> r
            == RuntimeExitStep::KeepRunning,
{
    match exited {
        Some(true) => RuntimeExitStep::Sleep,
        Some(false) => RuntimeExitStep::Failed,
        None => {
            if !generation_unchanged {
                RuntimeExitStep::Superseded
            } else if stop_requested {
                RuntimeExitStep::SafeStop
            } else if transfer_requested {
                RuntimeExitStep::Transfer
            } else {
                RuntimeExitStep::KeepRunning
            }
        },
    }
}

/// What the Fabric bridge reports of the world it runs.
pub struct FabricWorldInfo {
    pub minecraft_version: String,
    pub fabric_loader_version: String,
    pub compatibility_fingerprint: String,
}

#[derive(Debug, Clone, Copy, PartialEq, Eq, Structural)]
pub enum WorldInfoError {
    MinecraftMismatch,
    LoaderMismatch,
    DirectoryMismatch,
    FingerprintMismatch,
}

/// The launched world must be the restored one: the genesis Minecraft
/// version, the genesis loader version unless that is `unknown`, the
/// restored directory (`same_directory`, compared as paths by the caller),
/// and the world's compatibility fingerprint.
pub fn validate_world_info(
    info: &FabricWorldInfo,
    minecraft_version: &String,
    loader_version: &String,
    same_directory: bool,
    compatibility_fingerprint: &String,
) -> (r: Result<(), WorldInfoError>)
    ensures
        info.minecraft_version@ != minecraft_version@ ==> r == Err::<(), WorldInfoError>(WorldInfoError::MinecraftMismatch),
        info.minecraft_version@ == minecraft_version@ && loader_version@ != "unknown"@ && info.fabric_loader_version@
            != loader_version@ ==> r == Err::<(), WorldInfoError>(WorldInfoError::LoaderMismatch),
        r is Ok <==> info.minecraft_version@ == minecraft_version@ && (loader_version@ == "unknown"@
            || info.fabric_loader_version@ == loader_version@) && same_directory && info.compatibility_fingerprint@
            == compatibility_fingerprint@,
        r is Ok || r == Err::<(), WorldInfoError>(WorldInfoError::MinecraftMismatch) || r == Err::<(), WorldInfoError>(
            WorldInfoError::LoaderMismatch,
        ) || (r == Err::<(), WorldInfoError>(WorldInfoError::DirectoryMismatch) && !same_directory) || (r == Err::<
            (),
            WorldInfoError,
        >(WorldInfoError::FingerprintMismatch) && same_directory),
{
    if !(info.minecraft_version == *minecraft_version) {
        return Err(WorldInfoError::MinecraftMismatch);
    }
    let unknown = String::from_str("unknown");
    if !(*loader_version == unknown) && !(info.fabric_loader_version == *loader_version) {
        return Err(WorldInfoError::LoaderMismatch);
    }
    if !same_directory {
        return Err(WorldInfoError::DirectoryMismatch);
    }
    if !(info.compatibility_fingerprint == *compatibility_fingerprint) {
        return Err(WorldInfoError::FingerprintMismatch);
    }
    Ok(())
}


/// What the latest canonical snapshot records of its author.
pub struct SnapshotFacts {
    pub manifest_hash: String,
    pub epoch: u64,
    pub authority_peer_id: String,
    pub authority_public_key: String,
}

#[derive(Debug, Clone, Copy, PartialEq, Eq, Structural)]
pub enum EpochPlanError {
    NotMember,
    NotEligible,
    /// The local replica is behind the checkpoint the world sleeps on.
    StaleReplica,
    NotAuthority,
    /// No accepted generation could be loaded.
    NoGeneration,
}

/// The generation under which this device hosts.
pub enum EpochPlan {
    /// Host under the accepted generation, which this device holds.
    UseAccepted,
    /// Sign and store this new generation first.
    Create(AuthorityGeneration),
}

pub open spec fn new_generation(
    g: AuthorityGeneration,
    world: Seq<char>,
    local: LocalIdentity,
    epoch: int,
    fencing: int,
) -> bool {
    &&& g.world_id@ == world
    &&& g.authority_peer_id@ == local.peer_id@
    &&& g.authority_public_key@ == local.public_key@
    &&& g.epoch_number == epoch
    &&& g.fencing_token == fencing
    &&& g.mode == EpochMode::Solo
}

/// Chooses the generation for hosting: only an eligible member with its own
/// key may host; waking a sleeping world needs the exact checkpoint it
/// sleeps on and starts a solo generation one past the previous one; an
/// accepted generation must be held by this device; with none accepted,
/// the author of the latest snapshot starts the initial solo generation.
pub fn authority_epoch_plan(
    world: &String,
    local: &LocalIdentity,
    standing: Option<MemberStanding>,
    sleep_snapshot_hash: Option<&String>,
    accepted: Option<&AuthorityGeneration>,
    latest: &SnapshotFacts,
) -> (r: Result<EpochPlan, EpochPlanError>)
    ensures
        standing is None ==> r matches Err(EpochPlanError::NotMember),
        standing matches Some(m) && (m.banned || !m.authority_eligible || !m.key_matches) ==> r matches Err(
            EpochPlanError::NotEligible,
        ),
        standing matches Some(m) && !(m.banned || !m.authority_eligible || !m.key_matches) ==> match sleep_snapshot_hash {
            Some(h) => if h@ != latest.manifest_hash@ {
                r matches Err(EpochPlanError::StaleReplica)
            } else {
                match accepted {
                    Some(prev) => r matches Ok(EpochPlan::Create(g)) && new_generation(
                        g,
                        world@,
                        *local,
                        if prev.epoch_number == u64::MAX { u64::MAX as int } else { prev.epoch_number + 1 },
                        if prev.fencing_token == u64::MAX { u64::MAX as int } else { prev.fencing_token + 1 },
                    ),
                    None => r matches Err(EpochPlanError::NoGeneration),
                }
            },
            None => match accepted {
                Some(g) => if holds_generation(*g, *local) {
                    r matches Ok(EpochPlan::UseAccepted)
                } else {
                    r matches Err(EpochPlanError::NotAuthority)
                },
                None => if latest.authority_peer_id@ == local.peer_id@ && latest.authority_public_key@
                    == local.public_key@ {
                    r matches Ok(EpochPlan::Create(g)) && new_generation(g, world@, *local, latest.epoch as int, 1)
                } else {
                    r matches Err(EpochPlanError::NoGeneration)
                },
            },
        },
{
    match standing {
        None => {
            return Err(EpochPlanError::NotMember);
        },
        Some(m) => {
            if m.banned || !m.authority_eligible || !m.key_matches {
                return Err(EpochPlanError::NotEligible);
            }
        },
    }
    match sleep_snapshot_hash {
        Some(h) => {
            if !(*h == latest.manifest_hash) {
                return Err(EpochPlanError::StaleReplica);
            }
            match accepted {
                Some(prev) => Ok(
                    EpochPlan::Create(
                        AuthorityGeneration {
                            world_id: world.clone(),
                            authority_peer_id: local.peer_id.clone(),
                            authority_public_key: local.public_key.clone(),
                            epoch_number: prev.epoch_number.saturating_add(1),
                            fencing_token: prev.fencing_token.saturating_add(1),
                            mode: EpochMode::Solo,
                        },
                    ),
                ),
                None => Err(EpochPlanError::NoGeneration),
            }
        },
        None => match accepted {
            Some(g) => {
                if g.authority_peer_id == local.peer_id && g.authority_public_key == local.public_key {
                    Ok(EpochPlan::UseAccepted)
                } else {
                    Err(EpochPlanError::NotAuthority)
                }
            },
            None => {
                if latest.authority_peer_id == local.peer_id && latest.authority_public_key == local.public_key {
                    Ok(
                        EpochPlan::Create(
                            AuthorityGeneration {
                                world_id: world.clone(),
                                authority_peer_id: local.peer_id.clone(),
                                authority_public_key: local.public_key.clone(),
                                epoch_number: latest.epoch,
                                fencing_token: 1,
                                mode: EpochMode::Solo,
                            },
                        ),
                    )
                } else {
                    Err(EpochPlanError::NoGeneration)
                }
            },
        },
    }
}

// ---------------------------------------------------------------------------
// Seeding the game JAR
// ---------------------------------------------------------------------------

/// What `serde_json` reads out of a managed runtime lock: `None` where the
/// bytes are not one JSON value; else the `schema_version` key where it is
/// an integer that fits a `u64`, the `world_id` and `minecraft_version` keys
/// where they are strings, and the string at
/// `/artifacts/minecraft_server/sha256`.
pub uninterp spec fn runtime_lock_fields(bytes: Seq<u8>) -> Option<
    (Option<u64>, Option<Seq<char>>, Option<Seq<char>>, Option<Seq<char>>),
>;

/// The keys of a managed runtime lock that the game-JAR seeding reads, as
/// `serde_json::from_slice` into a `serde_json::Value` followed by
/// `Value::get` / `Value::pointer` with `Value::as_u64` / `Value::as_str`
/// reads them. The contract names the result; the JSON grammar is
/// serde_json's and is not restated here.
#[verifier::external_body]
fn read_runtime_lock(bytes: &[u8]) -> (r: Option<(Option<u64>, Option<String>, Option<String>, Option<String>)>)
    ensures
        match r {
            Some((schema, world, minecraft, sha256)) => runtime_lock_fields(bytes@) == Some(
                (schema, opt_str(world), opt_str(minecraft), opt_str(sha256)),
            ),
            None => runtime_lock_fields(bytes@) is None,
        },
{
    let lock: serde_json::Value = serde_json::from_slice(bytes).ok()?;
    let schema = lock.get("schema_version").and_then(serde_json::Value::as_u64);
    let world = lock.get("world_id").and_then(serde_json::Value::as_str).map(str::to_owned);
    let minecraft = lock.get("minecraft_version").and_then(serde_json::Value::as_str).map(str::to_owned);
    let sha256 = lock.pointer("/artifacts/minecraft_server/sha256").and_then(serde_json::Value::as_str).map(
        str::to_owned,
    );
    Some((schema, world, minecraft, sha256))
}

/// Why a managed runtime lock does not give the Minecraft server's SHA-256.
#[derive(Debug, Clone, Copy, PartialEq, Eq, Structural)]
pub enum SeedHashError {
    Malformed,
    NoSchemaVersion,
    IncompatibleSchema,
    NoWorld,
    OtherWorld,
    NoMinecraftVersion,
    OtherMinecraftVersion,
    NoSha256,
    InvalidSha256,
    Sha256Length,
}

impl SeedHashError {
    pub fn message(&self) -> (r: String)
        ensures
            *self == SeedHashError::Malformed ==> r@ == "managed runtime lock is malformed"@,
            *self == SeedHashError::NoSchemaVersion ==> r@ == "managed runtime lock is missing schema_version"@,
            *self == SeedHashError::IncompatibleSchema ==> r@
                == "managed runtime lock schema is incompatible with this build"@,
            *self == SeedHashError::NoWorld ==> r@ == "managed runtime lock is missing world_id"@,
            *self == SeedHashError::OtherWorld ==> r@ == "managed runtime lock belongs to a different world"@,
            *self == SeedHashError::NoMinecraftVersion ==> r@ == "managed runtime lock is missing minecraft_version"@,
            *self == SeedHashError::OtherMinecraftVersion ==> r@
                == "managed runtime lock belongs to a different Minecraft version"@,
            *self == SeedHashError::NoSha256 ==> r@ == "managed runtime lock is missing the Minecraft server SHA-256"@,
            *self == SeedHashError::InvalidSha256 ==> r@
                == "managed runtime lock contains an invalid Minecraft SHA-256"@,
            *self == SeedHashError::Sha256Length ==> r@
                == "managed runtime lock contains an invalid Minecraft SHA-256 length"@,
    {
        match self {
            SeedHashError::Malformed => String::from_str("managed runtime lock is malformed"),
            SeedHashError::NoSchemaVersion => String::from_str("managed runtime lock is missing schema_version"),
            SeedHashError::IncompatibleSchema => String::from_str(
                "managed runtime lock schema is incompatible with this build",
            ),
            SeedHashError::NoWorld => String::from_str("managed runtime lock is missing world_id"),
            SeedHashError::OtherWorld => String::from_str("managed runtime lock belongs to a different world"),
            SeedHashError::NoMinecraftVersion => String::from_str("managed runtime lock is missing minecraft_version"),
            SeedHashError::OtherMinecraftVersion => String::from_str(
                "managed runtime lock belongs to a different Minecraft version",
            ),
            SeedHashError::NoSha256 => String::from_str("managed runtime lock is missing the Minecraft server SHA-256"),
            SeedHashError::InvalidSha256 => String::from_str(
                "managed runtime lock contains an invalid Minecraft SHA-256",
            ),
            SeedHashError::Sha256Length => String::from_str(
                "managed runtime lock contains an invalid Minecraft SHA-256 length",
            ),
        }
    }
}

/// The expected SHA-256 of the Minecraft server JAR, in lowercase, from the
/// fields of a managed runtime lock: the lock must have this build's schema,
/// belong to `world` and to `minecraft`, and hold 32 bytes of hexadecimal.
pub open spec fn seed_hash_spec(
    fields: Option<(Option<u64>, Option<Seq<char>>, Option<Seq<char>>, Option<Seq<char>>)>,
    world: Seq<char>,
    minecraft: Seq<char>,
) -> Result<Seq<char>, SeedHashError> {
    match fields {
        None => Err(SeedHashError::Malformed),
        Some((schema, lock_world, lock_minecraft, sha256)) => match schema {
            None => Err(SeedHashError::NoSchemaVersion),
            Some(v) => if v != RUNTIME_LOCK_SCHEMA_VERSION {
                Err(SeedHashError::IncompatibleSchema)
            } else {
                match lock_world {
                    None => Err(SeedHashError::NoWorld),
                    Some(w) => if w != world {
                        Err(SeedHashError::OtherWorld)
                    } else {
                        match lock_minecraft {
                            None => Err(SeedHashError::NoMinecraftVersion),
                            Some(m) => if m != minecraft {
                                Err(SeedHashError::OtherMinecraftVersion)
                            } else {
                                match sha256 {
                                    None => Err(SeedHashError::NoSha256),
                                    Some(h) => match hex_decode_spec(h) {
                                        None => Err(SeedHashError::InvalidSha256),
                                        Some(bytes) => if bytes.len() != 32 {
                                            Err(SeedHashError::Sha256Length)
                                        } else {
                                            Ok(lower_text(h))
                                        },
                                    },
                                }
                            },
                        }
                    },
                }
            },
        },
    }
}

/// The checks of a managed runtime lock's fields, as read by serde_json,
/// before its Minecraft server hash seeds the game JAR.
pub fn seed_hash_from_fields(
    fields: Option<(Option<u64>, Option<String>, Option<String>, Option<String>)>,
    world: &String,
    minecraft: &String,
) -> (r: Result<String, SeedHashError>)
    ensures
        match seed_hash_spec(
            match fields {
                Some((a, b, c, d)) => Some((a, opt_str(b), opt_str(c), opt_str(d))),
                None => None,
            },
            world@,
            minecraft@,
        ) {
            Ok(h) => r matches Ok(s) && s@ == h,
            Err(e) => r matches Err(x) && x == e,
        },
{
    let (schema, lock_world, lock_minecraft, sha256) = match fields {
        None => {
            return Err(SeedHashError::Malformed);
        },
        Some(f) => f,
    };
    match schema {
        None => {
            return Err(SeedHashError::NoSchemaVersion);
        },
        Some(v) => {
            if v != RUNTIME_LOCK_SCHEMA_VERSION as u64 {
                return Err(SeedHashError::IncompatibleSchema);
            }
        },
    }
    match lock_world {
        None => {
            return Err(SeedHashError::NoWorld);
        },
        Some(w) => {
            if !(w == *world) {
                return Err(SeedHashError::OtherWorld);
            }
        },
    }
    match lock_minecraft {
        None => {
            return Err(SeedHashError::NoMinecraftVersion);
        },
        Some(m) => {
            if !(m == *minecraft) {
                return Err(SeedHashError::OtherMinecraftVersion);
            }
        },
    }
    let h = match sha256 {
        None => {
            return Err(SeedHashError::NoSha256);
        },
        Some(h) => h,
    };
    let chars = chars_of(h.as_str());
    match hex_decode(chars.as_slice()) {
        None => Err(SeedHashError::InvalidSha256),
        Some(bytes) => {
            if bytes.len() != 32 {
                Err(SeedHashError::Sha256Length)
            } else {
                let mut lower: Vec<char> = Vec::new();
                let mut i: usize = 0;
                while i < chars.len()
                    invariant
                        i <= chars@.len(),
                        lower@ == lower_text(chars@.subrange(0, i as int)),
                    decreases chars@.len() - i,
                {
                    lower.push(to_ascii_lower(chars[i]));
                    assert(lower@ =~= lower_text(chars@.subrange(0, i + 1)));
                    i = i + 1;
                }
                assert(chars@.subrange(0, chars@.len() as int) =~= chars@);
                Ok(string_from_chars(lower.as_slice()))
            }
        },
    }
}

/// The expected SHA-256 of the Minecraft server JAR that a managed runtime
/// lock records, from the lock's bytes.
pub fn managed_seed_expected_sha256(lock_bytes: &[u8], world: &String, minecraft: &String) -> (r: Result<
    String,
    SeedHashError,
>)
    ensures
        match seed_hash_spec(runtime_lock_fields(lock_bytes@), world@, minecraft@) {
            Ok(h) => r matches Ok(s) && s@ == h,
            Err(e) => r matches Err(x) && x == e,
        },
{
    let fields = read_runtime_lock(lock_bytes);
    seed_hash_from_fields(fields, world, minecraft)
}

} // verus!
