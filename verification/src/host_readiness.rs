//! Host readiness: whether the current host of a world may shut down without
//! taking the world offline. From the world's membership, its authority
//! epoch, its latest canonical snapshot and what each peer last reported, it
//! derives one readiness row per other active member and decides, fail
//! closed, between a safe handoff and the reasons that block one.
use vstd::prelude::*;
use crate::clock::{unix_millis_saturating, ClockError};
use crate::discovery::opt_view;
use crate::text::{hex_spec, hex_string, lex_le, lex_le_exec, lemma_lex_total, lemma_lex_transitive};

verus! {

pub const HOST_READINESS_MAX_AGE_MS: u64 = 6_000;

#[derive(Debug, Clone, Copy, PartialEq, Eq, Structural)]
pub enum HostReadinessState {
    Safe,
    Sleeping,
    WorldWillStop,
    Syncing,
    BlockedByRuntime,
    BlockedByMods,
    BlockedByQuorum,
    DegradedSafety,
    Conflict,
    NotCurrentHost,
    Unknown,
}

/// What a peer reports of its Minecraft/Fabric runtime.
#[derive(Debug, Clone, Copy, PartialEq, Eq, Structural)]
pub enum HostRuntimeReadiness {
    Ready,
    MissingConfiguration,
    EulaRequired,
    MissingJava,
    MissingServerJar,
    MissingSwarmCraftMod,
    Unverified,
    Incompatible,
}

/// What a peer reports of the world's required server mods.
#[derive(Debug, Clone, Copy, PartialEq, Eq, Structural)]
pub enum ServerModsReadiness {
    Ready,
    Missing,
    Incompatible,
    Unverified,
}

#[derive(Debug, Clone, Copy, PartialEq, Eq, Structural)]
pub enum EpochMode {
    Solo,
    Quorum,
    Recovery,
}

/// A member of the world's canonical membership.
pub struct WorldMember {
    pub peer_id: String,
    pub authority_eligible: bool,
    pub banned: bool,
}

/// The world's canonical membership.
pub struct WorldDescriptor {
    pub world_id: String,
    pub compatibility_fingerprint: String,
    pub members: Vec<WorldMember>,
}

/// The current authority epoch.
pub struct EpochRecord {
    pub epoch_number: u64,
    pub authority_peer_id: String,
    pub mode: EpochMode,
}

/// The latest canonical snapshot: its sequence, state root and manifest hash.
pub struct CanonicalHead {
    pub sequence: u64,
    pub state_root: String,
    pub manifest_hash: String,
}

/// The world status a peer last reported.
pub struct PeerStatus {
    pub world_id: String,
    pub epoch: u64,
    pub sequence: u64,
    pub latest_snapshot: Option<String>,
    pub state_hash: Option<String>,
    pub compatibility_fingerprint: String,
    pub authority_eligible: bool,
}

/// The hosting capability a peer last advertised.
pub struct HostCapability {
    pub world_id: String,
    pub compatibility_fingerprint: String,
    pub runtime: HostRuntimeReadiness,
    pub server_mods: ServerModsReadiness,
    pub conflict_free: bool,
    pub recovery_quorum_without_authority: bool,
}

/// What is known of one peer.
pub struct PeerReadinessObservation {
    pub peer_id: String,
    pub reachable: bool,
    pub status: Option<PeerStatus>,
    pub capability: Option<HostCapability>,
}

/// One readiness row of the report.
pub struct HostPeerReadiness {
    pub peer_id: String,
    pub reachable: bool,
    pub current_state: bool,
    pub authority_eligible: bool,
    pub capability_fresh: bool,
    pub runtime: HostRuntimeReadiness,
    pub server_mods: ServerModsReadiness,
    pub conflict_free: bool,
    pub recovery_quorum_without_authority: bool,
}

/// A readiness row with its peer id as text.
pub struct PeerRow {
    pub peer_id: Seq<char>,
    pub reachable: bool,
    pub current_state: bool,
    pub authority_eligible: bool,
    pub capability_fresh: bool,
    pub runtime: HostRuntimeReadiness,
    pub server_mods: ServerModsReadiness,
    pub conflict_free: bool,
    pub recovery_quorum_without_authority: bool,
}

impl View for HostPeerReadiness {
    type V = PeerRow;

    open spec fn view(&self) -> PeerRow {
        PeerRow {
            peer_id: self.peer_id@,
            reachable: self.reachable,
            current_state: self.current_state,
            authority_eligible: self.authority_eligible,
            capability_fresh: self.capability_fresh,
            runtime: self.runtime,
            server_mods: self.server_mods,
            conflict_free: self.conflict_free,
            recovery_quorum_without_authority: self.recovery_quorum_without_authority,
        }
    }
}

pub open spec fn rows_view(rows: Seq<HostPeerReadiness>) -> Seq<PeerRow> {
    rows.map_values(|p: HostPeerReadiness| p@)
}

pub struct HostReadinessReport {
    pub world_id: String,
    pub generated_unix_ms: u64,
    pub local_peer_id: String,
    pub current_host_peer_id: Option<String>,
    pub state: HostReadinessState,
    pub safe_to_shutdown: bool,
    pub successor_peer_id: Option<String>,
    pub handoff_candidate_peer_id: Option<String>,
    pub world_data_replicated: bool,
    pub detail: String,
    pub peers: Vec<HostPeerReadiness>,
}

// ---------------------------------------------------------------------------
// Ordering of rows by peer id
// ---------------------------------------------------------------------------

/// Inserts `x` after the last row whose peer id is not above its own, as a
/// stable sort places it.
pub open spec fn insert_sorted(rows: Seq<PeerRow>, x: PeerRow) -> Seq<PeerRow>
    decreases rows.len(),
{
    if rows.len() == 0 {
        seq![x]
    } else if lex_le(rows.last().peer_id, x.peer_id) {
        rows.push(x)
    } else {
        insert_sorted(rows.drop_last(), x).push(rows.last())
    }
}

/// The rows in the order of a stable sort by peer id.
pub open spec fn sort_rows(rows: Seq<PeerRow>) -> Seq<PeerRow>
    decreases rows.len(),
{
    if rows.len() == 0 {
        rows
    } else {
        insert_sorted(sort_rows(rows.drop_last()), rows.last())
    }
}

proof fn lemma_insert_sorted_len(rows: Seq<PeerRow>, x: PeerRow)
    ensures
        insert_sorted(rows, x).len() == rows.len() + 1,
    decreases rows.len(),
{
    if rows.len() > 0 && !lex_le(rows.last().peer_id, x.peer_id) {
        lemma_insert_sorted_len(rows.drop_last(), x);
    }
}

fn insert_row(rows: &mut Vec<HostPeerReadiness>, x: HostPeerReadiness)
    ensures
        rows_view(final(rows)@) == insert_sorted(rows_view(old(rows)@), x@),
{
    let ghost old_rows = rows_view(rows@);
    let ghost xv = x@;
    let key = crate::text::chars_of(x.peer_id.as_str());
    let mut j: usize = rows.len();
    assert(old_rows.subrange(0, old_rows.len() as int) =~= old_rows);
    assert(insert_sorted(old_rows, xv) + old_rows.subrange(old_rows.len() as int, old_rows.len() as int)
        =~= insert_sorted(old_rows, xv));
    loop
        invariant
            j <= rows@.len(),
            rows_view(rows@) == old_rows,
            key@ == xv.peer_id,
            insert_sorted(old_rows, xv) == insert_sorted(old_rows.subrange(0, j as int), xv) + old_rows.subrange(
                j as int,
                old_rows.len() as int,
            ),
        ensures
            j <= rows@.len(),
            rows_view(rows@) == old_rows,
            insert_sorted(old_rows, xv) == insert_sorted(old_rows.subrange(0, j as int), xv) + old_rows.subrange(
                j as int,
                old_rows.len() as int,
            ),
            j == 0 || lex_le(old_rows[j - 1].peer_id, xv.peer_id),
        decreases j,
    {
        if j == 0 {
            break;
        }
        let other = crate::text::chars_of(rows[j - 1].peer_id.as_str());
        if lex_le_exec(&other, &key) {
            break;
        }
        proof {
            let pre = old_rows.subrange(0, j as int);
            assert(pre.last() == old_rows[j - 1]);
            assert(pre.drop_last() =~= old_rows.subrange(0, j - 1));
            assert(insert_sorted(pre, xv) == insert_sorted(old_rows.subrange(0, j - 1), xv).push(old_rows[j - 1]));
            assert(insert_sorted(old_rows.subrange(0, j - 1), xv).push(old_rows[j - 1]) + old_rows.subrange(
                j as int,
                old_rows.len() as int,
            ) =~= insert_sorted(old_rows.subrange(0, j - 1), xv) + old_rows.subrange(j - 1, old_rows.len() as int));
        }
        j = j - 1;
    }
    proof {
        let pre = old_rows.subrange(0, j as int);
        if j > 0 {
            assert(pre.last() == old_rows[j - 1]);
        }
        assert(insert_sorted(pre, xv) =~= pre.push(xv));
    }
    rows.insert(j, x);
    assert(rows_view(rows@) =~= old_rows.subrange(0, j as int).push(xv) + old_rows.subrange(
        j as int,
        old_rows.len() as int,
    ));
}

/// Sorts rows by peer id, keeping the order of rows with equal ids.
fn sort_by_peer_id(rows: Vec<HostPeerReadiness>) -> (r: Vec<HostPeerReadiness>)
    ensures
        rows_view(r@) == sort_rows(rows_view(rows@)),
{
    let ghost input = rows_view(rows@);
    let mut sorted: Vec<HostPeerReadiness> = Vec::new();
    let mut rest = rows;
    let mut taken: usize = 0;
    let count = rest.len();
    assert(input.len() == count);
    while rest.len() > 0
        invariant
            taken + rest@.len() == input.len(),
            input.len() <= usize::MAX,
            rows_view(rest@) =~= input.subrange(taken as int, input.len() as int),
            rows_view(sorted@) == sort_rows(input.subrange(0, taken as int)),
        decreases rest@.len(),
    {
        let ghost before = rest@;
        let row = rest.remove(0);
        proof {
            assert(rows_view(rest@) =~= rows_view(before).drop_first());
            assert(input.subrange(0, taken + 1).drop_last() =~= input.subrange(0, taken as int));
            assert(input.subrange(0, taken + 1).last() == input[taken as int]);
            assert(rows_view(before)[0] == input[taken as int]);
            assert(row@ == input[taken as int]);
        }
        insert_row(&mut sorted, row);
        taken = taken + 1;
    }
    assert(input.subrange(0, input.len() as int) =~= input);
    sorted
}


// ---------------------------------------------------------------------------
// Readiness rows
// ---------------------------------------------------------------------------

/// A peer's status names the exact canonical head: same world, epoch,
/// sequence, manifest hash, state root and compatibility fingerprint.
pub open spec fn status_matches_canonical(
    status: PeerStatus,
    descriptor: WorldDescriptor,
    epoch: EpochRecord,
    head: CanonicalHead,
) -> bool {
    &&& status.world_id@ == descriptor.world_id@
    &&& status.epoch == epoch.epoch_number
    &&& status.sequence == head.sequence
    &&& opt_view(status.latest_snapshot) == Some(head.manifest_hash@)
    &&& opt_view(status.state_hash) == Some(head.state_root@)
    &&& status.compatibility_fingerprint@ == descriptor.compatibility_fingerprint@
}

/// The index of the first observation of `peer` at or after `from`.
pub open spec fn observation_index(observations: Seq<PeerReadinessObservation>, peer: Seq<char>, from: int) -> Option<
    int,
>
    decreases observations.len() - from,
{
    if from < 0 || from >= observations.len() {
        None
    } else if observations[from].peer_id@ == peer {
        Some(from)
    } else {
        observation_index(observations, peer, from + 1)
    }
}

/// The first observation of `peer`.
pub open spec fn observation_of(observations: Seq<PeerReadinessObservation>, peer: Seq<char>) -> Option<
    PeerReadinessObservation,
> {
    match observation_index(observations, peer, 0) {
        Some(i) => Some(observations[i]),
        None => None,
    }
}

/// The advertised capability belongs to this world and its compatibility
/// fingerprint.
pub open spec fn capability_matches(capability: HostCapability, descriptor: WorldDescriptor) -> bool {
    capability.world_id@ == descriptor.world_id@ && capability.compatibility_fingerprint@
        == descriptor.compatibility_fingerprint@
}

/// The readiness row of one member, from its first observation if any.
pub open spec fn derive_row(
    member: WorldMember,
    observation: Option<PeerReadinessObservation>,
    descriptor: WorldDescriptor,
    epoch: EpochRecord,
    head: CanonicalHead,
) -> PeerRow {
    let status = match observation {
        Some(o) => o.status,
        None => None,
    };
    let capability = match observation {
        Some(o) => o.capability,
        None => None,
    };
    PeerRow {
        peer_id: member.peer_id@,
        reachable: observation matches Some(o) && o.reachable,
        current_state: status matches Some(st) && status_matches_canonical(st, descriptor, epoch, head),
        authority_eligible: member.authority_eligible && (status matches Some(st) && st.authority_eligible),
        capability_fresh: capability is Some,
        runtime: match capability {
            Some(c) => if capability_matches(c, descriptor) { c.runtime } else { HostRuntimeReadiness::Incompatible },
            None => HostRuntimeReadiness::Unverified,
        },
        server_mods: match capability {
            Some(c) => if capability_matches(c, descriptor) { c.server_mods } else { ServerModsReadiness::Incompatible },
            None => ServerModsReadiness::Unverified,
        },
        conflict_free: capability matches Some(c) && capability_matches(c, descriptor) && c.conflict_free,
        recovery_quorum_without_authority: capability matches Some(c) && capability_matches(c, descriptor)
            && c.recovery_quorum_without_authority,
    }
}

/// One row per member other than the local peer that is not banned, in
/// membership order.
pub open spec fn derived_rows(
    members: Seq<WorldMember>,
    local: Seq<char>,
    observations: Seq<PeerReadinessObservation>,
    descriptor: WorldDescriptor,
    epoch: EpochRecord,
    head: CanonicalHead,
) -> Seq<PeerRow>
    decreases members.len(),
{
    if members.len() == 0 {
        Seq::empty()
    } else {
        let earlier = derived_rows(members.drop_last(), local, observations, descriptor, epoch, head);
        let m = members.last();
        if m.peer_id@ != local && !m.banned {
            earlier.push(derive_row(m, observation_of(observations, m.peer_id@), descriptor, epoch, head))
        } else {
            earlier
        }
    }
}

fn find_observation<'a>(observations: &'a [PeerReadinessObservation], peer: &String) -> (r: Option<
    &'a PeerReadinessObservation,
>)
    ensures
        match r {
            Some(o) => observation_of(observations@, peer@) == Some(*o),
            None => observation_of(observations@, peer@) is None,
        },
{
    let mut i: usize = 0;
    while i < observations.len()
        invariant
            i <= observations@.len(),
            observation_index(observations@, peer@, 0) == observation_index(observations@, peer@, i as int),
        decreases observations@.len() - i,
    {
        if observations[i].peer_id == *peer {
            return Some(&observations[i]);
        }
        i = i + 1;
    }
    None
}

fn opt_string_eq(value: &Option<String>, expected: &String) -> (r: bool)
    ensures
        r == (opt_view(*value) == Some(expected@)),
{
    match value {
        Some(v) => *v == *expected,
        None => false,
    }
}

fn status_current(
    status: &PeerStatus,
    descriptor: &WorldDescriptor,
    epoch: &EpochRecord,
    head: &CanonicalHead,
) -> (r: bool)
    ensures
        r == status_matches_canonical(*status, *descriptor, *epoch, *head),
{
    status.world_id == descriptor.world_id && status.epoch == epoch.epoch_number && status.sequence == head.sequence
        && opt_string_eq(&status.latest_snapshot, &head.manifest_hash) && opt_string_eq(
        &status.state_hash,
        &head.state_root,
    ) && status.compatibility_fingerprint == descriptor.compatibility_fingerprint
}

fn row_for(
    member: &WorldMember,
    observation: Option<&PeerReadinessObservation>,
    descriptor: &WorldDescriptor,
    epoch: &EpochRecord,
    head: &CanonicalHead,
) -> (r: HostPeerReadiness)
    ensures
        r@ == derive_row(
            *member,
            match observation {
                Some(o) => Some(*o),
                None => None,
            },
            *descriptor,
            *epoch,
            *head,
        ),
{
    let mut reachable = false;
    let mut current_state = false;
    let mut status_eligible = false;
    let mut capability_fresh = false;
    let mut runtime = HostRuntimeReadiness::Unverified;
    let mut server_mods = ServerModsReadiness::Unverified;
    let mut conflict_free = false;
    let mut recovery = false;
    match observation {
        Some(o) => {
            reachable = o.reachable;
            match &o.status {
                Some(st) => {
                    current_state = status_current(st, descriptor, epoch, head);
                    status_eligible = st.authority_eligible;
                },
                None => {},
            }
            match &o.capability {
                Some(c) => {
                    capability_fresh = true;
                    let matches = c.world_id == descriptor.world_id && c.compatibility_fingerprint
                        == descriptor.compatibility_fingerprint;
                    if matches {
                        runtime = c.runtime;
                        server_mods = c.server_mods;
                        conflict_free = c.conflict_free;
                        recovery = c.recovery_quorum_without_authority;
                    } else {
                        runtime = HostRuntimeReadiness::Incompatible;
                        server_mods = ServerModsReadiness::Incompatible;
                    }
                },
                None => {},
            }
        },
        None => {},
    }
    HostPeerReadiness {
        peer_id: member.peer_id.clone(),
        reachable,
        current_state,
        authority_eligible: member.authority_eligible && status_eligible,
        capability_fresh,
        runtime,
        server_mods,
        conflict_free,
        recovery_quorum_without_authority: recovery,
    }
}

fn rows_in_membership_order(
    local_peer: &String,
    descriptor: &WorldDescriptor,
    epoch: &EpochRecord,
    head: &CanonicalHead,
    observations: &[PeerReadinessObservation],
) -> (r: Vec<HostPeerReadiness>)
    ensures
        rows_view(r@) == derived_rows(descriptor.members@, local_peer@, observations@, *descriptor, *epoch, *head),
{
    let mut rows: Vec<HostPeerReadiness> = Vec::new();
    let ghost members = descriptor.members@;
    let mut i: usize = 0;
    while i < descriptor.members.len()
        invariant
            i <= members.len(),
            members == descriptor.members@,
            rows_view(rows@) == derived_rows(members.subrange(0, i as int), local_peer@, observations@, *descriptor, *epoch, *head),
        decreases members.len() - i,
    {
        let member = &descriptor.members[i];
        proof {
            assert(members.subrange(0, i + 1).drop_last() =~= members.subrange(0, i as int));
            assert(members.subrange(0, i + 1).last() == members[i as int]);
        }
        if !(member.peer_id == *local_peer) && !member.banned {
            let observation = find_observation(observations, &member.peer_id);
            let row = row_for(member, observation, descriptor, epoch, head);
            rows.push(row);
            assert(rows_view(rows@) =~= rows_view(rows@.drop_last()).push(row@));
        }
        i = i + 1;
    }
    assert(members.subrange(0, members.len() as int) =~= members);
    rows
}


// ---------------------------------------------------------------------------
// The shutdown decision
// ---------------------------------------------------------------------------

/// Reachable, holding the exact current state, and allowed to hold authority.
pub open spec fn eligible_current(p: PeerRow) -> bool {
    p.reachable && p.current_state && p.authority_eligible
}

/// Could take over hosting: eligible and current, with a verified runtime and
/// server-mod set and no unresolved history; where `need_quorum`, also able
/// to form the recovery quorum without the current host.
pub open spec fn ready_to_host(p: PeerRow, need_quorum: bool) -> bool {
    &&& eligible_current(p)
    &&& p.runtime == HostRuntimeReadiness::Ready
    &&& p.server_mods == ServerModsReadiness::Ready
    &&& p.conflict_free
    &&& (need_quorum ==> p.recovery_quorum_without_authority)
}

/// The first row at or after `from` that is ready to host.
pub open spec fn first_ready(rows: Seq<PeerRow>, from: int, need_quorum: bool) -> Option<int>
    decreases rows.len() - from,
{
    if from < 0 || from >= rows.len() {
        None
    } else if ready_to_host(rows[from], need_quorum) {
        Some(from)
    } else {
        first_ready(rows, from + 1, need_quorum)
    }
}

pub open spec fn some_runtime_unready(rows: Seq<PeerRow>) -> bool {
    exists|i: int| 0 <= i < rows.len() && eligible_current(#[trigger] rows[i]) && rows[i].runtime != HostRuntimeReadiness::Ready
}

pub open spec fn some_mods_unready(rows: Seq<PeerRow>) -> bool {
    exists|i: int| 0 <= i < rows.len() && eligible_current(#[trigger] rows[i]) && rows[i].server_mods != ServerModsReadiness::Ready
}

pub open spec fn some_unresolved(rows: Seq<PeerRow>) -> bool {
    exists|i: int| 0 <= i < rows.len() && eligible_current(#[trigger] rows[i]) && !rows[i].conflict_free
}

pub open spec fn some_syncing(rows: Seq<PeerRow>) -> bool {
    exists|i: int| 0 <= i < rows.len() && (#[trigger] rows[i]).reachable && !rows[i].current_state
}

/// Some other member holds the exact current state.
pub open spec fn replicated(rows: Seq<PeerRow>) -> bool {
    exists|i: int| 0 <= i < rows.len() && (#[trigger] rows[i]).current_state
}

/// The outcome of the decision; indices are into the sorted rows.
#[derive(Debug, Clone, Copy, PartialEq, Eq, Structural)]
pub enum Verdict {
    NotCurrentHost,
    Conflict,
    SoloHistory,
    Safe { successor: usize },
    BlockedByQuorum { candidate: usize },
    BlockedByRuntime,
    BlockedByMods,
    SuccessorUnresolved,
    Syncing,
    WorldWillStop,
}

/// The decision, in order: only the current host can be safe; preserved
/// conflicts and solo history are never green; then the first successor
/// that keeps the recovery quorum, else the first that could host after an
/// explicit transfer, else the first blocker found among eligible current
/// replicas, else whether some reachable peer is still syncing.
pub open spec fn verdict_spec(is_host: bool, has_conflicts: bool, solo: bool, rows: Seq<PeerRow>) -> Verdict {
    if !is_host {
        Verdict::NotCurrentHost
    } else if has_conflicts {
        Verdict::Conflict
    } else if solo {
        Verdict::SoloHistory
    } else if first_ready(rows, 0, true) is Some {
        Verdict::Safe { successor: first_ready(rows, 0, true)->0 as usize }
    } else if first_ready(rows, 0, false) is Some {
        Verdict::BlockedByQuorum { candidate: first_ready(rows, 0, false)->0 as usize }
    } else if some_runtime_unready(rows) {
        Verdict::BlockedByRuntime
    } else if some_mods_unready(rows) {
        Verdict::BlockedByMods
    } else if some_unresolved(rows) {
        Verdict::SuccessorUnresolved
    } else if some_syncing(rows) {
        Verdict::Syncing
    } else {
        Verdict::WorldWillStop
    }
}

pub open spec fn state_of(v: Verdict) -> HostReadinessState {
    match v {
        Verdict::NotCurrentHost => HostReadinessState::NotCurrentHost,
        Verdict::Conflict => HostReadinessState::Conflict,
        Verdict::SoloHistory => HostReadinessState::DegradedSafety,
        Verdict::Safe { .. } => HostReadinessState::Safe,
        Verdict::BlockedByQuorum { .. } => HostReadinessState::BlockedByQuorum,
        Verdict::BlockedByRuntime => HostReadinessState::BlockedByRuntime,
        Verdict::BlockedByMods => HostReadinessState::BlockedByMods,
        Verdict::SuccessorUnresolved => HostReadinessState::DegradedSafety,
        Verdict::Syncing => HostReadinessState::Syncing,
        Verdict::WorldWillStop => HostReadinessState::WorldWillStop,
    }
}

pub open spec fn successor_of(v: Verdict, rows: Seq<PeerRow>) -> Option<Seq<char>> {
    match v {
        Verdict::Safe { successor } => Some(rows[successor as int].peer_id),
        _ => None,
    }
}

pub open spec fn handoff_of(v: Verdict, rows: Seq<PeerRow>) -> Option<Seq<char>> {
    match v {
        Verdict::Safe { successor } => Some(rows[successor as int].peer_id),
        Verdict::BlockedByQuorum { candidate } => Some(rows[candidate as int].peer_id),
        _ => None,
    }
}

pub open spec fn detail_of(v: Verdict, rows: Seq<PeerRow>) -> Seq<char> {
    match v {
        Verdict::NotCurrentHost => "This device is not the current host. SwarmCraft has not proven that removing this quorum member is safe, so shutdown readiness is intentionally fail-closed."@,
        Verdict::Conflict => "Conflicting world history is preserved on this device. Resolve the conflict before relying on automatic host takeover."@,
        Verdict::SoloHistory => "This world is running with solo authority history. Wait for quorum reconciliation before treating another replica as a safe automatic successor."@,
        Verdict::Safe { successor } => "Safe to shut down. "@ + rows[successor as int].peer_id
            + " has the current world state, a verified compatible runtime and mods, and can still form the recovery quorum after this host disappears."@,
        Verdict::BlockedByQuorum { candidate } => rows[candidate as int].peer_id
            + " is ready to host, but automatic recovery would not retain quorum after this computer disappears. Transfer hosting before shutdown."@,
        Verdict::BlockedByRuntime => "Another current replica is authority-eligible, but no successor has a verified compatible Minecraft/Fabric runtime on that machine."@,
        Verdict::BlockedByMods => "Another current replica can host in principle, but its required server-mod set is missing, incompatible, or not yet verified."@,
        Verdict::SuccessorUnresolved => "A possible successor reports unresolved history safety state and is not eligible for a green shutdown decision."@,
        Verdict::Syncing => "Wait before shutting down. At least one reachable peer has not yet proven it holds the exact current canonical snapshot."@,
        Verdict::WorldWillStop => if replicated(rows) {
            "No other reachable, authority-eligible device is ready to keep hosting. A current replica exists, but storage replication alone does not make it a host."@
        } else {
            "No other reachable device currently proves it can keep this world online. Shutting down this computer will make the world unavailable."@
        },
    }
}

fn row_ready(p: &HostPeerReadiness, need_quorum: bool) -> (r: bool)
    ensures
        r == ready_to_host(p@, need_quorum),
{
    p.reachable && p.current_state && p.authority_eligible && p.runtime == HostRuntimeReadiness::Ready
        && p.server_mods == ServerModsReadiness::Ready && p.conflict_free && (!need_quorum
        || p.recovery_quorum_without_authority)
}

fn find_ready(rows: &Vec<HostPeerReadiness>, need_quorum: bool) -> (r: Option<usize>)
    ensures
        match r {
            Some(i) => first_ready(rows_view(rows@), 0, need_quorum) == Some(i as int),
            None => first_ready(rows_view(rows@), 0, need_quorum) is None,
        },
{
    let mut i: usize = 0;
    while i < rows.len()
        invariant
            i <= rows@.len(),
            first_ready(rows_view(rows@), 0, need_quorum) == first_ready(rows_view(rows@), i as int, need_quorum),
        decreases rows@.len() - i,
    {
        if row_ready(&rows[i], need_quorum) {
            return Some(i);
        }
        i = i + 1;
    }
    None
}

/// Which condition `scan_rows` looks for.
enum Scan {
    RuntimeUnready,
    ModsUnready,
    Unresolved,
    Syncing,
    Replicated,
}

spec fn scan_hit(p: PeerRow, scan: Scan) -> bool {
    match scan {
        Scan::RuntimeUnready => eligible_current(p) && p.runtime != HostRuntimeReadiness::Ready,
        Scan::ModsUnready => eligible_current(p) && p.server_mods != ServerModsReadiness::Ready,
        Scan::Unresolved => eligible_current(p) && !p.conflict_free,
        Scan::Syncing => p.reachable && !p.current_state,
        Scan::Replicated => p.current_state,
    }
}

fn scan_rows(rows: &Vec<HostPeerReadiness>, scan: Scan) -> (r: bool)
    ensures
        r == exists|i: int| 0 <= i < rows@.len() && scan_hit(#[trigger] rows_view(rows@)[i], scan),
{
    let mut i: usize = 0;
    while i < rows.len()
        invariant
            i <= rows@.len(),
            forall|k: int| 0 <= k < i ==> !scan_hit(#[trigger] rows_view(rows@)[k], scan),
        decreases rows@.len() - i,
    {
        let p = &rows[i];
        let eligible = p.reachable && p.current_state && p.authority_eligible;
        let hit = match scan {
            Scan::RuntimeUnready => eligible && p.runtime != HostRuntimeReadiness::Ready,
            Scan::ModsUnready => eligible && p.server_mods != ServerModsReadiness::Ready,
            Scan::Unresolved => eligible && !p.conflict_free,
            Scan::Syncing => p.reachable && !p.current_state,
            Scan::Replicated => p.current_state,
        };
        assert(hit == scan_hit(rows_view(rows@)[i as int], scan));
        if hit {
            return true;
        }
        i = i + 1;
    }
    false
}

fn decide(is_host: bool, has_conflicts: bool, solo: bool, rows: &Vec<HostPeerReadiness>) -> (r: Verdict)
    ensures
        r == verdict_spec(is_host, has_conflicts, solo, rows_view(rows@)),
{
    let ghost v = rows_view(rows@);
    if !is_host {
        return Verdict::NotCurrentHost;
    }
    if has_conflicts {
        return Verdict::Conflict;
    }
    if solo {
        return Verdict::SoloHistory;
    }
    match find_ready(rows, true) {
        Some(i) => {
            return Verdict::Safe { successor: i };
        },
        None => {},
    }
    match find_ready(rows, false) {
        Some(i) => {
            return Verdict::BlockedByQuorum { candidate: i };
        },
        None => {},
    }
    if scan_rows(rows, Scan::RuntimeUnready) {
        assert(some_runtime_unready(v));
        return Verdict::BlockedByRuntime;
    }
    assert(!some_runtime_unready(v)) by {
        assert forall|i: int| 0 <= i < v.len() implies !(eligible_current(#[trigger] v[i]) && v[i].runtime
            != HostRuntimeReadiness::Ready) by {
            assert(!scan_hit(v[i], Scan::RuntimeUnready));
        }
    }
    if scan_rows(rows, Scan::ModsUnready) {
        assert(some_mods_unready(v));
        return Verdict::BlockedByMods;
    }
    assert(!some_mods_unready(v)) by {
        assert forall|i: int| 0 <= i < v.len() implies !(eligible_current(#[trigger] v[i]) && v[i].server_mods
            != ServerModsReadiness::Ready) by {
            assert(!scan_hit(v[i], Scan::ModsUnready));
        }
    }
    if scan_rows(rows, Scan::Unresolved) {
        assert(some_unresolved(v));
        return Verdict::SuccessorUnresolved;
    }
    assert(!some_unresolved(v)) by {
        assert forall|i: int| 0 <= i < v.len() implies !(eligible_current(#[trigger] v[i]) && !v[i].conflict_free) by {
            assert(!scan_hit(v[i], Scan::Unresolved));
        }
    }
    if scan_rows(rows, Scan::Syncing) {
        assert(some_syncing(v));
        return Verdict::Syncing;
    }
    assert(!some_syncing(v)) by {
        assert forall|i: int| 0 <= i < v.len() implies !((#[trigger] v[i]).reachable && !v[i].current_state) by {
            assert(!scan_hit(v[i], Scan::Syncing));
        }
    }
    Verdict::WorldWillStop
}


/// The row that `first_ready` finds is in range and ready.
pub proof fn lemma_first_ready(rows: Seq<PeerRow>, from: int, need_quorum: bool)
    ensures
        first_ready(rows, from, need_quorum) matches Some(i) ==> from <= i < rows.len() && ready_to_host(
            rows[i],
            need_quorum,
        ),
    decreases rows.len() - from,
{
    if 0 <= from < rows.len() && !ready_to_host(rows[from], need_quorum) {
        lemma_first_ready(rows, from + 1, need_quorum);
    }
}

pub open spec fn verdict_in_range(v: Verdict, len: int) -> bool {
    match v {
        Verdict::Safe { successor } => successor < len,
        Verdict::BlockedByQuorum { candidate } => candidate < len,
        _ => true,
    }
}

fn detail_text(v: Verdict, rows: &Vec<HostPeerReadiness>, replicated_rows: bool) -> (r: String)
    requires
        verdict_in_range(v, rows@.len() as int),
        replicated_rows == replicated(rows_view(rows@)),
    ensures
        r@ == detail_of(v, rows_view(rows@)),
{
    match v {
        Verdict::NotCurrentHost => String::from_str(
            "This device is not the current host. SwarmCraft has not proven that removing this quorum member is safe, so shutdown readiness is intentionally fail-closed.",
        ),
        Verdict::Conflict => String::from_str(
            "Conflicting world history is preserved on this device. Resolve the conflict before relying on automatic host takeover.",
        ),
        Verdict::SoloHistory => String::from_str(
            "This world is running with solo authority history. Wait for quorum reconciliation before treating another replica as a safe automatic successor.",
        ),
        Verdict::Safe { successor } => {
            let mut text = String::from_str("Safe to shut down. ");
            text.append(rows[successor].peer_id.as_str());
            text.append(
                " has the current world state, a verified compatible runtime and mods, and can still form the recovery quorum after this host disappears.",
            );
            text
        },
        Verdict::BlockedByQuorum { candidate } => {
            let mut text = rows[candidate].peer_id.clone();
            text.append(
                " is ready to host, but automatic recovery would not retain quorum after this computer disappears. Transfer hosting before shutdown.",
            );
            text
        },
        Verdict::BlockedByRuntime => String::from_str(
            "Another current replica is authority-eligible, but no successor has a verified compatible Minecraft/Fabric runtime on that machine.",
        ),
        Verdict::BlockedByMods => String::from_str(
            "Another current replica can host in principle, but its required server-mod set is missing, incompatible, or not yet verified.",
        ),
        Verdict::SuccessorUnresolved => String::from_str(
            "A possible successor reports unresolved history safety state and is not eligible for a green shutdown decision.",
        ),
        Verdict::Syncing => String::from_str(
            "Wait before shutting down. At least one reachable peer has not yet proven it holds the exact current canonical snapshot.",
        ),
        Verdict::WorldWillStop => if replicated_rows {
            String::from_str(
                "No other reachable, authority-eligible device is ready to keep hosting. A current replica exists, but storage replication alone does not make it a host.",
            )
        } else {
            String::from_str(
                "No other reachable device currently proves it can keep this world online. Shutting down this computer will make the world unavailable.",
            )
        },
    }
}

/// The rows of a report: one per other active member, sorted by peer id.
pub open spec fn report_rows(
    local: Seq<char>,
    descriptor: WorldDescriptor,
    epoch: EpochRecord,
    head: CanonicalHead,
    observations: Seq<PeerReadinessObservation>,
) -> Seq<PeerRow> {
    sort_rows(derived_rows(descriptor.members@, local, observations, descriptor, epoch, head))
}

/// The verdict of a report.
pub open spec fn report_verdict(
    local: Seq<char>,
    descriptor: WorldDescriptor,
    epoch: EpochRecord,
    head: CanonicalHead,
    has_conflicts: bool,
    observations: Seq<PeerReadinessObservation>,
) -> Verdict {
    verdict_spec(
        local == epoch.authority_peer_id@,
        has_conflicts,
        epoch.mode == EpochMode::Solo,
        report_rows(local, descriptor, epoch, head, observations),
    )
}

/// Everything a readiness report states, but the time it was generated.
pub open spec fn report_ok(
    r: HostReadinessReport,
    local: Seq<char>,
    descriptor: WorldDescriptor,
    epoch: EpochRecord,
    head: CanonicalHead,
    has_conflicts: bool,
    observations: Seq<PeerReadinessObservation>,
) -> bool {
    let rows = report_rows(local, descriptor, epoch, head, observations);
    let v = report_verdict(local, descriptor, epoch, head, has_conflicts, observations);
    &&& r.world_id@ == descriptor.world_id@
    &&& r.local_peer_id@ == local
    &&& opt_view(r.current_host_peer_id) == Some(epoch.authority_peer_id@)
    &&& r.state == state_of(v)
    &&& r.safe_to_shutdown == (state_of(v) == HostReadinessState::Safe)
    &&& opt_view(r.successor_peer_id) == successor_of(v, rows)
    &&& opt_view(r.handoff_candidate_peer_id) == handoff_of(v, rows)
    &&& r.world_data_replicated == replicated(rows)
    &&& r.detail@ == detail_of(v, rows)
    &&& rows_view(r.peers@) == rows
}

/// The readiness report of the local peer, stamped with `generated_unix_ms`.
pub fn readiness_report(
    local_peer: &String,
    descriptor: &WorldDescriptor,
    epoch: &EpochRecord,
    head: &CanonicalHead,
    has_conflicts: bool,
    observations: &[PeerReadinessObservation],
    generated_unix_ms: u64,
) -> (r: HostReadinessReport)
    ensures
        report_ok(r, local_peer@, *descriptor, *epoch, *head, has_conflicts, observations@),
        r.generated_unix_ms == generated_unix_ms,
{
    let unsorted = rows_in_membership_order(local_peer, descriptor, epoch, head, observations);
    let peers = sort_by_peer_id(unsorted);
    let ghost rows = rows_view(peers@);
    let is_host = *local_peer == epoch.authority_peer_id;
    let solo = epoch.mode == EpochMode::Solo;
    let verdict = decide(is_host, has_conflicts, solo, &peers);
    proof {
        lemma_first_ready(rows, 0, true);
        lemma_first_ready(rows, 0, false);
    }
    let world_data_replicated = scan_rows(&peers, Scan::Replicated);
    assert(world_data_replicated == replicated(rows)) by {
        if world_data_replicated {
            let i = choose|i: int| 0 <= i < peers@.len() && scan_hit(#[trigger] rows_view(peers@)[i], Scan::Replicated);
            assert(rows[i].current_state);
        }
        if replicated(rows) {
            let i = choose|i: int| 0 <= i < rows.len() && (#[trigger] rows[i]).current_state;
            assert(scan_hit(rows_view(peers@)[i], Scan::Replicated));
        }
    }
    let detail = detail_text(verdict, &peers, world_data_replicated);
    let (state, safe, successor, handoff) = match verdict {
        Verdict::Safe { successor } => (
            HostReadinessState::Safe,
            true,
            Some(peers[successor].peer_id.clone()),
            Some(peers[successor].peer_id.clone()),
        ),
        Verdict::BlockedByQuorum { candidate } => (
            HostReadinessState::BlockedByQuorum,
            false,
            None,
            Some(peers[candidate].peer_id.clone()),
        ),
        Verdict::NotCurrentHost => (HostReadinessState::NotCurrentHost, false, None, None),
        Verdict::Conflict => (HostReadinessState::Conflict, false, None, None),
        Verdict::SoloHistory => (HostReadinessState::DegradedSafety, false, None, None),
        Verdict::BlockedByRuntime => (HostReadinessState::BlockedByRuntime, false, None, None),
        Verdict::BlockedByMods => (HostReadinessState::BlockedByMods, false, None, None),
        Verdict::SuccessorUnresolved => (HostReadinessState::DegradedSafety, false, None, None),
        Verdict::Syncing => (HostReadinessState::Syncing, false, None, None),
        Verdict::WorldWillStop => (HostReadinessState::WorldWillStop, false, None, None),
    };
    HostReadinessReport {
        world_id: descriptor.world_id.clone(),
        generated_unix_ms,
        local_peer_id: local_peer.clone(),
        current_host_peer_id: Some(epoch.authority_peer_id.clone()),
        state,
        safe_to_shutdown: safe,
        successor_peer_id: successor,
        handoff_candidate_peer_id: handoff,
        world_data_replicated,
        detail,
        peers,
    }
}

/// The readiness report of the local peer, stamped with the current time
/// (saturated at `u64::MAX`); fails only where the clock is before the epoch.
pub fn evaluate_host_readiness(
    local_peer: &String,
    descriptor: &WorldDescriptor,
    epoch: &EpochRecord,
    head: &CanonicalHead,
    has_conflicts: bool,
    observations: &[PeerReadinessObservation],
) -> (r: Result<HostReadinessReport, ClockError>)
    ensures
        r matches Ok(report) ==> report_ok(report, local_peer@, *descriptor, *epoch, *head, has_conflicts, observations@),
        r matches Err(e) ==> e == ClockError::BeforeEpoch,
{
    let now = unix_millis_saturating()?;
    Ok(readiness_report(local_peer, descriptor, epoch, head, has_conflicts, observations, now))
}


// ---------------------------------------------------------------------------
// Laws
// ---------------------------------------------------------------------------

/// Rows in non-decreasing order of peer id.
pub open spec fn sorted_by_peer_id(rows: Seq<PeerRow>) -> bool {
    forall|i: int, j: int| 0 <= i < j < rows.len() ==> lex_le((#[trigger] rows[i]).peer_id, (#[trigger] rows[j]).peer_id)
}

proof fn lemma_insert_sorted(rows: Seq<PeerRow>, x: PeerRow)
    requires
        sorted_by_peer_id(rows),
    ensures
        sorted_by_peer_id(insert_sorted(rows, x)),
        insert_sorted(rows, x).to_multiset() =~= rows.to_multiset().insert(x),
    decreases rows.len(),
{
    broadcast use vstd::seq_lib::group_to_multiset_ensures;
    if rows.len() == 0 {
        assert(seq![x] =~= Seq::<PeerRow>::empty().push(x));
    } else {
        let last = rows.last();
        let init = rows.drop_last();
        assert(rows =~= init.push(last));
        if lex_le(last.peer_id, x.peer_id) {
            let r = rows.push(x);
            assert forall|i: int, j: int| 0 <= i < j < r.len() implies lex_le(
                (#[trigger] r[i]).peer_id,
                (#[trigger] r[j]).peer_id,
            ) by {
                if j == rows.len() {
                    if i < rows.len() - 1 {
                        assert(lex_le(rows[i].peer_id, rows[rows.len() - 1].peer_id));
                        lemma_lex_transitive(rows[i].peer_id, last.peer_id, x.peer_id);
                    }
                }
            }
        } else {
            lemma_insert_sorted(init, x);
            let inner = insert_sorted(init, x);
            let r = inner.push(last);
            lemma_lex_total(last.peer_id, x.peer_id);
            assert forall|k: int| 0 <= k < inner.len() implies lex_le((#[trigger] inner[k]).peer_id, last.peer_id) by {
                let e = inner[k];
                assert(inner.contains(e));
                assert(inner.to_multiset().count(e) > 0);
                if e != x {
                    assert(init.to_multiset().count(e) > 0);
                    assert(init.contains(e));
                    let m = choose|m: int| 0 <= m < init.len() && init[m] == e;
                    assert(rows[m] == e);
                    assert(lex_le(rows[m].peer_id, rows[rows.len() - 1].peer_id));
                }
            }
            assert forall|i: int, j: int| 0 <= i < j < r.len() implies lex_le(
                (#[trigger] r[i]).peer_id,
                (#[trigger] r[j]).peer_id,
            ) by {
                if j < inner.len() {
                    assert(r[i] == inner[i] && r[j] == inner[j]);
                } else {
                    assert(r[i] == inner[i]);
                }
            }
        }
    }
}

proof fn lemma_sort_rows(rows: Seq<PeerRow>)
    ensures
        sorted_by_peer_id(sort_rows(rows)),
        sort_rows(rows).to_multiset() =~= rows.to_multiset(),
    decreases rows.len(),
{
    broadcast use vstd::seq_lib::group_to_multiset_ensures;
    if rows.len() > 0 {
        lemma_sort_rows(rows.drop_last());
        lemma_insert_sorted(sort_rows(rows.drop_last()), rows.last());
        assert(rows =~= rows.drop_last().push(rows.last()));
    }
}

/// The rows of a report are the rows of the other active members, each
/// once, in non-decreasing order of peer id.
pub proof fn lemma_report_rows_sorted(
    local: Seq<char>,
    descriptor: WorldDescriptor,
    epoch: EpochRecord,
    head: CanonicalHead,
    observations: Seq<PeerReadinessObservation>,
)
    ensures
        sorted_by_peer_id(report_rows(local, descriptor, epoch, head, observations)),
        report_rows(local, descriptor, epoch, head, observations).to_multiset() =~= derived_rows(
            descriptor.members@,
            local,
            observations,
            descriptor,
            epoch,
            head,
        ).to_multiset(),
{
    lemma_sort_rows(derived_rows(descriptor.members@, local, observations, descriptor, epoch, head));
}

/// A report says a shutdown is safe exactly when its state is `Safe`; then
/// the local peer is the current host of a non-solo epoch without preserved
/// conflicts, and the named successor, also the handoff candidate, is one of
/// the reported rows that is reachable, current, authority-eligible, has a
/// verified runtime and server-mod set, no unresolved history, and keeps
/// the recovery quorum without this host.
pub proof fn lemma_safe_shutdown_has_ready_successor(
    r: HostReadinessReport,
    local: Seq<char>,
    descriptor: WorldDescriptor,
    epoch: EpochRecord,
    head: CanonicalHead,
    has_conflicts: bool,
    observations: Seq<PeerReadinessObservation>,
)
    requires
        report_ok(r, local, descriptor, epoch, head, has_conflicts, observations),
    ensures
        r.safe_to_shutdown <==> r.state == HostReadinessState::Safe,
        r.safe_to_shutdown ==> {
            &&& local == epoch.authority_peer_id@
            &&& !has_conflicts
            &&& epoch.mode != EpochMode::Solo
            &&& r.successor_peer_id is Some
            &&& opt_view(r.handoff_candidate_peer_id) == opt_view(r.successor_peer_id)
            &&& exists|i: int|
                0 <= i < r.peers@.len() && (#[trigger] r.peers@[i])@.peer_id == r.successor_peer_id->0@
                    && ready_to_host(r.peers@[i]@, true)
        },
{
    let rows = report_rows(local, descriptor, epoch, head, observations);
    lemma_first_ready(rows, 0, true);
    if r.safe_to_shutdown {
        let i = first_ready(rows, 0, true)->0;
        assert(r.peers.len() == r.peers@.len());
        assert(i as usize as int == i);
        assert(rows_view(r.peers@)[i] == r.peers@[i]@);
        assert(r.peers@[i]@.peer_id == r.successor_peer_id->0@);
    }
}

proof fn lemma_derived_rows_conflict_free(
    members: Seq<WorldMember>,
    local: Seq<char>,
    observations: Seq<PeerReadinessObservation>,
    descriptor: WorldDescriptor,
    epoch: EpochRecord,
    head: CanonicalHead,
)
    ensures
        forall|i: int|
            0 <= i < derived_rows(members, local, observations, descriptor, epoch, head).len() && (#[trigger] derived_rows(
                members,
                local,
                observations,
                descriptor,
                epoch,
                head,
            )[i]).conflict_free ==> {
                let o = observation_of(observations, derived_rows(members, local, observations, descriptor, epoch, head)[i].peer_id);
                &&& o is Some
                &&& o->Some_0.capability is Some
                &&& o->Some_0.capability->Some_0.world_id@ == descriptor.world_id@
                &&& o->Some_0.capability->Some_0.compatibility_fingerprint@ == descriptor.compatibility_fingerprint@
                &&& o->Some_0.capability->Some_0.conflict_free
            },
    decreases members.len(),
{
    if members.len() > 0 {
        lemma_derived_rows_conflict_free(members.drop_last(), local, observations, descriptor, epoch, head);
    }
}

/// A row of a report is free of unresolved history only where the member's
/// first observation carries a capability for this world and compatibility
/// fingerprint that itself reports no unresolved history; so the successor
/// of a safe report reported that of itself.
pub proof fn lemma_conflict_free_rows_were_reported(
    r: HostReadinessReport,
    local: Seq<char>,
    descriptor: WorldDescriptor,
    epoch: EpochRecord,
    head: CanonicalHead,
    has_conflicts: bool,
    observations: Seq<PeerReadinessObservation>,
)
    requires
        report_ok(r, local, descriptor, epoch, head, has_conflicts, observations),
    ensures
        forall|i: int|
            0 <= i < r.peers@.len() && (#[trigger] r.peers@[i]).conflict_free ==> {
                let o = observation_of(observations, r.peers@[i].peer_id@);
                &&& o is Some
                &&& o->Some_0.capability is Some
                &&& o->Some_0.capability->Some_0.world_id@ == descriptor.world_id@
                &&& o->Some_0.capability->Some_0.compatibility_fingerprint@ == descriptor.compatibility_fingerprint@
                &&& o->Some_0.capability->Some_0.conflict_free
            },
        r.state == HostReadinessState::Safe ==> {
            let o = observation_of(observations, r.successor_peer_id->Some_0@);
            &&& r.successor_peer_id is Some
            &&& o is Some
            &&& o->Some_0.capability is Some
            &&& o->Some_0.capability->Some_0.world_id@ == descriptor.world_id@
            &&& o->Some_0.capability->Some_0.compatibility_fingerprint@ == descriptor.compatibility_fingerprint@
            &&& o->Some_0.capability->Some_0.conflict_free
        },
{
    broadcast use vstd::seq_lib::group_to_multiset_ensures;
    let rows = report_rows(local, descriptor, epoch, head, observations);
    let derived = derived_rows(descriptor.members@, local, observations, descriptor, epoch, head);
    lemma_report_rows_sorted(local, descriptor, epoch, head, observations);
    lemma_derived_rows_conflict_free(descriptor.members@, local, observations, descriptor, epoch, head);
    assert forall|i: int| 0 <= i < r.peers@.len() && (#[trigger] r.peers@[i]).conflict_free implies {
        let o = observation_of(observations, r.peers@[i].peer_id@);
        &&& o is Some
        &&& o->Some_0.capability is Some
        &&& o->Some_0.capability->Some_0.world_id@ == descriptor.world_id@
        &&& o->Some_0.capability->Some_0.compatibility_fingerprint@ == descriptor.compatibility_fingerprint@
        &&& o->Some_0.capability->Some_0.conflict_free
    } by {
        assert(rows_view(r.peers@)[i] == r.peers@[i]@);
        let row = rows[i];
        assert(rows.contains(row));
        assert(rows.to_multiset().count(row) > 0);
        assert(derived.contains(row));
        let k = choose|k: int| 0 <= k < derived.len() && derived[k] == row;
        assert(derived[k].conflict_free);
    }
    lemma_safe_shutdown_has_ready_successor(r, local, descriptor, epoch, head, has_conflicts, observations);
    if r.state == HostReadinessState::Safe {
        let i = choose|i: int|
            0 <= i < r.peers@.len() && (#[trigger] r.peers@[i])@.peer_id == r.successor_peer_id->0@
                && ready_to_host(r.peers@[i]@, true);
        assert(r.peers@[i].conflict_free);
    }
}

/// What a readiness row may claim, given what was observed: the row is
/// that of an unbanned member other than the local peer, and each good
/// mark it carries is backed by that member's first observation; the
/// capability marks only by a capability for this world and compatibility
/// fingerprint that reports the same.
pub open spec fn row_backed(
    p: PeerRow,
    members: Seq<WorldMember>,
    local: Seq<char>,
    observations: Seq<PeerReadinessObservation>,
    descriptor: WorldDescriptor,
    epoch: EpochRecord,
    head: CanonicalHead,
) -> bool {
    let o = observation_of(observations, p.peer_id);
    let st = o->Some_0.status->Some_0;
    let c = o->Some_0.capability->Some_0;
    let cap_here = o is Some && o->Some_0.capability is Some && c.world_id@ == descriptor.world_id@
        && c.compatibility_fingerprint@ == descriptor.compatibility_fingerprint@;
    &&& p.peer_id != local
    &&& exists|k: int|
        0 <= k < members.len() && (#[trigger] members[k]).peer_id@ == p.peer_id && !members[k].banned && (
        p.authority_eligible ==> members[k].authority_eligible)
    &&& p.reachable ==> o is Some && o->Some_0.reachable
    &&& p.current_state ==> {
        &&& o is Some && o->Some_0.status is Some
        &&& st.world_id@ == descriptor.world_id@ && st.epoch == epoch.epoch_number && st.sequence == head.sequence
        &&& st.latest_snapshot is Some && st.latest_snapshot->Some_0@ == head.manifest_hash@
        &&& st.state_hash is Some && st.state_hash->Some_0@ == head.state_root@
        &&& st.compatibility_fingerprint@ == descriptor.compatibility_fingerprint@
    }
    &&& p.authority_eligible ==> o is Some && o->Some_0.status is Some && st.authority_eligible
    &&& p.capability_fresh ==> o is Some && o->Some_0.capability is Some
    &&& p.runtime == HostRuntimeReadiness::Ready ==> cap_here && c.runtime == HostRuntimeReadiness::Ready
    &&& p.server_mods == ServerModsReadiness::Ready ==> cap_here && c.server_mods == ServerModsReadiness::Ready
    &&& p.conflict_free ==> cap_here && c.conflict_free
    &&& p.recovery_quorum_without_authority ==> cap_here && c.recovery_quorum_without_authority
}

proof fn lemma_derived_rows_backed(
    members: Seq<WorldMember>,
    local: Seq<char>,
    observations: Seq<PeerReadinessObservation>,
    descriptor: WorldDescriptor,
    epoch: EpochRecord,
    head: CanonicalHead,
)
    ensures
        forall|i: int|
            0 <= i < derived_rows(members, local, observations, descriptor, epoch, head).len() ==> row_backed(
                #[trigger] derived_rows(members, local, observations, descriptor, epoch, head)[i],
                members,
                local,
                observations,
                descriptor,
                epoch,
                head,
            ),
    decreases members.len(),
{
    if members.len() > 0 {
        let front = members.drop_last();
        lemma_derived_rows_backed(front, local, observations, descriptor, epoch, head);
        let rows = derived_rows(members, local, observations, descriptor, epoch, head);
        let earlier = derived_rows(front, local, observations, descriptor, epoch, head);
        assert forall|i: int| 0 <= i < rows.len() implies row_backed(
            #[trigger] rows[i],
            members,
            local,
            observations,
            descriptor,
            epoch,
            head,
        ) by {
            if i < earlier.len() {
                assert(rows[i] == earlier[i]);
                assert(row_backed(earlier[i], front, local, observations, descriptor, epoch, head));
                let k = choose|k: int|
                    0 <= k < front.len() && (#[trigger] front[k]).peer_id@ == earlier[i].peer_id && !front[k].banned && (
                    earlier[i].authority_eligible ==> front[k].authority_eligible);
                assert(members[k] == front[k]);
            } else {
                let k = members.len() - 1;
                assert(members[k] == members.last());
            }
        }
    }
}

/// Every row of a report is backed by what was observed (`row_backed`):
/// a peer is never reported reachable, current, eligible, ready or free
/// of unresolved history unless its own first observation said so.
pub proof fn lemma_report_rows_backed_by_observations(
    r: HostReadinessReport,
    local: Seq<char>,
    descriptor: WorldDescriptor,
    epoch: EpochRecord,
    head: CanonicalHead,
    has_conflicts: bool,
    observations: Seq<PeerReadinessObservation>,
)
    requires
        report_ok(r, local, descriptor, epoch, head, has_conflicts, observations),
    ensures
        forall|i: int|
            0 <= i < r.peers@.len() ==> row_backed(
                (#[trigger] r.peers@[i])@,
                descriptor.members@,
                local,
                observations,
                descriptor,
                epoch,
                head,
            ),
{
    broadcast use vstd::seq_lib::group_to_multiset_ensures;
    let rows = report_rows(local, descriptor, epoch, head, observations);
    let derived = derived_rows(descriptor.members@, local, observations, descriptor, epoch, head);
    lemma_report_rows_sorted(local, descriptor, epoch, head, observations);
    lemma_derived_rows_backed(descriptor.members@, local, observations, descriptor, epoch, head);
    assert forall|i: int| 0 <= i < r.peers@.len() implies row_backed(
        (#[trigger] r.peers@[i])@,
        descriptor.members@,
        local,
        observations,
        descriptor,
        epoch,
        head,
    ) by {
        assert(rows_view(r.peers@)[i] == r.peers@[i]@);
        let row = rows[i];
        assert(rows.contains(row));
        assert(rows.to_multiset().count(row) > 0);
        assert(derived.contains(row));
        let k = choose|k: int| 0 <= k < derived.len() && derived[k] == row;
        assert(row_backed(derived[k], descriptor.members@, local, observations, descriptor, epoch, head));
    }
}

/// Only the current host of the epoch can be told that a shutdown is safe;
/// preserved conflicting history and solo authority history are never safe.
pub proof fn lemma_never_safe_without_clean_quorum_authority(
    r: HostReadinessReport,
    local: Seq<char>,
    descriptor: WorldDescriptor,
    epoch: EpochRecord,
    head: CanonicalHead,
    has_conflicts: bool,
    observations: Seq<PeerReadinessObservation>,
)
    requires
        report_ok(r, local, descriptor, epoch, head, has_conflicts, observations),
    ensures
        local != epoch.authority_peer_id@ ==> r.state == HostReadinessState::NotCurrentHost && !r.safe_to_shutdown,
        local == epoch.authority_peer_id@ && has_conflicts ==> r.state == HostReadinessState::Conflict
            && !r.safe_to_shutdown,
        local == epoch.authority_peer_id@ && !has_conflicts && epoch.mode == EpochMode::Solo ==> r.state
            == HostReadinessState::DegradedSafety && !r.safe_to_shutdown,
{
}

/// Without another member that is current and could host, the world stops
/// or waits: it is never reported safe, and no successor or handoff
/// candidate is named.
pub proof fn lemma_no_candidate_no_successor(
    r: HostReadinessReport,
    local: Seq<char>,
    descriptor: WorldDescriptor,
    epoch: EpochRecord,
    head: CanonicalHead,
    has_conflicts: bool,
    observations: Seq<PeerReadinessObservation>,
)
    requires
        report_ok(r, local, descriptor, epoch, head, has_conflicts, observations),
        forall|i: int| 0 <= i < r.peers@.len() ==> !ready_to_host((#[trigger] r.peers@[i])@, false),
    ensures
        !r.safe_to_shutdown,
        r.successor_peer_id is None,
        r.handoff_candidate_peer_id is None,
{
    let rows = report_rows(local, descriptor, epoch, head, observations);
    lemma_first_ready(rows, 0, true);
    lemma_first_ready(rows, 0, false);
    if first_ready(rows, 0, true) is Some {
        let i = first_ready(rows, 0, true)->0;
        assert(rows[i] == r.peers@[i]@);
    }
    if first_ready(rows, 0, false) is Some {
        let i = first_ready(rows, 0, false)->0;
        assert(rows[i] == r.peers@[i]@);
    }
}


// ---------------------------------------------------------------------------
// Stored reports
// ---------------------------------------------------------------------------

pub open spec fn stale_detail() -> Seq<char> {
    "Host-readiness data is stale. Keep SwarmCraft running and reconnect peers before deciding whether to shut down."@
}

/// A stored report is stale once more than the maximum age has passed since
/// it was generated; a report from the future is not stale.
pub open spec fn is_stale(generated_unix_ms: u64, now: u64) -> bool {
    now > generated_unix_ms && now - generated_unix_ms > HOST_READINESS_MAX_AGE_MS
}

/// A row of a stale report: nothing it said of reachability, currency,
/// capability or recovery quorum is relied on any more.
pub open spec fn stale_row(p: PeerRow) -> PeerRow {
    PeerRow {
        reachable: false,
        current_state: false,
        capability_fresh: false,
        recovery_quorum_without_authority: false,
        ..p
    }
}

#[derive(Debug, Clone, Copy, PartialEq, Eq, Structural)]
pub enum StoredReportError {
    /// The stored report belongs to another world.
    OtherWorld,
}

/// Checks a stored report against the world it was loaded for and, where
/// it is stale, withdraws every safety claim it made.
pub fn check_stored_report(report: HostReadinessReport, world_id: &String, now: u64) -> (r: Result<
    HostReadinessReport,
    StoredReportError,
>)
    ensures
        report.world_id@ != world_id@ ==> r == Err::<HostReadinessReport, StoredReportError>(
            StoredReportError::OtherWorld,
        ),
        report.world_id@ == world_id@ ==> (r matches Ok(out) && {
            &&& out.world_id@ == report.world_id@
            &&& out.generated_unix_ms == report.generated_unix_ms
            &&& out.local_peer_id@ == report.local_peer_id@
            &&& opt_view(out.current_host_peer_id) == opt_view(report.current_host_peer_id)
            &&& out.world_data_replicated == report.world_data_replicated
            &&& if is_stale(report.generated_unix_ms, now) {
                &&& out.state == HostReadinessState::Unknown
                &&& !out.safe_to_shutdown
                &&& out.successor_peer_id is None
                &&& out.handoff_candidate_peer_id is None
                &&& out.detail@ == stale_detail()
                &&& rows_view(out.peers@) == rows_view(report.peers@).map_values(|p: PeerRow| stale_row(p))
            } else {
                &&& out.state == report.state
                &&& out.safe_to_shutdown == report.safe_to_shutdown
                &&& opt_view(out.successor_peer_id) == opt_view(report.successor_peer_id)
                &&& opt_view(out.handoff_candidate_peer_id) == opt_view(report.handoff_candidate_peer_id)
                &&& out.detail@ == report.detail@
                &&& rows_view(out.peers@) == rows_view(report.peers@)
            }
        }),
{
    if report.world_id != *world_id {
        return Err(StoredReportError::OtherWorld);
    }
    let age = now.saturating_sub(report.generated_unix_ms);
    if age <= HOST_READINESS_MAX_AGE_MS {
        return Ok(report);
    }
    let mut out = report;
    out.state = HostReadinessState::Unknown;
    out.safe_to_shutdown = false;
    out.successor_peer_id = None;
    out.handoff_candidate_peer_id = None;
    out.detail = String::from_str(
        "Host-readiness data is stale. Keep SwarmCraft running and reconnect peers before deciding whether to shut down.",
    );
    let ghost before = rows_view(out.peers@);
    let mut i: usize = 0;
    while i < out.peers.len()
        invariant
            i <= out.peers@.len(),
            before.len() == out.peers@.len(),
            forall|k: int| 0 <= k < i ==> (#[trigger] rows_view(out.peers@)[k]) == stale_row(before[k]),
            forall|k: int| i <= k < out.peers@.len() ==> (#[trigger] rows_view(out.peers@)[k]) == before[k],
            out.world_id@ == report.world_id@,
            out.generated_unix_ms == report.generated_unix_ms,
            out.local_peer_id@ == report.local_peer_id@,
            opt_view(out.current_host_peer_id) == opt_view(report.current_host_peer_id),
            out.world_data_replicated == report.world_data_replicated,
            out.state == HostReadinessState::Unknown,
            !out.safe_to_shutdown,
            out.successor_peer_id is None,
            out.handoff_candidate_peer_id is None,
            out.detail@ == stale_detail(),
        decreases out.peers@.len() - i,
    {
        let ghost old_peers = out.peers@;
        assert(rows_view(old_peers)[i as int] == before[i as int]);
        let mut row = out.peers.remove(i);
        row.reachable = false;
        row.current_state = false;
        row.capability_fresh = false;
        row.recovery_quorum_without_authority = false;
        out.peers.insert(i, row);
        proof {
            assert(out.peers@ =~= old_peers.update(i as int, row));
            assert(row@ == stale_row(before[i as int]));
            assert forall|k: int| 0 <= k < out.peers@.len() && k != i implies (#[trigger] rows_view(out.peers@)[k])
                == rows_view(old_peers)[k] by {}
        }
        i = i + 1;
    }
    assert(rows_view(out.peers@) =~= before.map_values(|p: PeerRow| stale_row(p)));
    Ok(out)
}

/// A report that knows nothing of the world's readiness.
pub fn unknown_report_at(
    world_id: String,
    local_peer: String,
    current_host: Option<String>,
    detail: String,
    generated_unix_ms: u64,
) -> (r: HostReadinessReport)
    ensures
        r.world_id@ == world_id@,
        r.generated_unix_ms == generated_unix_ms,
        r.local_peer_id@ == local_peer@,
        opt_view(r.current_host_peer_id) == opt_view(current_host),
        r.state == HostReadinessState::Unknown,
        !r.safe_to_shutdown,
        r.successor_peer_id is None,
        r.handoff_candidate_peer_id is None,
        !r.world_data_replicated,
        r.detail@ == detail@,
        r.peers@.len() == 0,
{
    HostReadinessReport {
        world_id,
        generated_unix_ms,
        local_peer_id: local_peer,
        current_host_peer_id: current_host,
        state: HostReadinessState::Unknown,
        safe_to_shutdown: false,
        successor_peer_id: None,
        handoff_candidate_peer_id: None,
        world_data_replicated: false,
        detail,
        peers: Vec::new(),
    }
}

/// `unknown_report_at` stamped with the current time, or 0 where the clock
/// reads before the epoch.
pub fn unknown_report(world_id: String, local_peer: String, current_host: Option<String>, detail: String) -> (r:
    HostReadinessReport)
    ensures
        r.world_id@ == world_id@,
        r.local_peer_id@ == local_peer@,
        opt_view(r.current_host_peer_id) == opt_view(current_host),
        r.state == HostReadinessState::Unknown,
        !r.safe_to_shutdown,
        r.successor_peer_id is None,
        r.handoff_candidate_peer_id is None,
        !r.world_data_replicated,
        r.detail@ == detail@,
        r.peers@.len() == 0,
{
    let now = match unix_millis_saturating() {
        Ok(now) => now,
        Err(_) => 0,
    };
    unknown_report_at(world_id, local_peer, current_host, detail, now)
}

fn some_status(observations: &[PeerReadinessObservation]) -> (r: bool)
    ensures
        r == exists|i: int| 0 <= i < observations@.len() && (#[trigger] observations@[i]).status is Some,
{
    let mut i: usize = 0;
    while i < observations.len()
        invariant
            i <= observations@.len(),
            forall|k: int| 0 <= k < i ==> (#[trigger] observations@[k]).status is None,
        decreases observations@.len() - i,
    {
        if observations[i].status.is_some() {
            return true;
        }
        i = i + 1;
    }
    false
}

pub open spec fn sleeping_detail() -> Seq<char> {
    "This world is already durably sleeping. Powering off this device will not interrupt a running Minecraft server."@
}

/// The report for a world that is durably sleeping: shutting down is safe,
/// and the world's data is replicated where some peer reported a status.
pub fn sleeping_report(
    world_id: String,
    local_peer: String,
    authority_peer: String,
    observations: &[PeerReadinessObservation],
    generated_unix_ms: u64,
) -> (r: HostReadinessReport)
    ensures
        r.world_id@ == world_id@,
        r.generated_unix_ms == generated_unix_ms,
        r.local_peer_id@ == local_peer@,
        opt_view(r.current_host_peer_id) == Some(authority_peer@),
        r.state == HostReadinessState::Sleeping,
        r.safe_to_shutdown,
        r.successor_peer_id is None,
        r.handoff_candidate_peer_id is None,
        r.world_data_replicated == exists|i: int| 0 <= i < observations@.len() && (#[trigger] observations@[i]).status is Some,
        r.detail@ == sleeping_detail(),
        r.peers@.len() == 0,
{
    let any_status = some_status(observations);
    HostReadinessReport {
        world_id,
        generated_unix_ms,
        local_peer_id: local_peer,
        current_host_peer_id: Some(authority_peer),
        state: HostReadinessState::Sleeping,
        safe_to_shutdown: true,
        successor_peer_id: None,
        handoff_candidate_peer_id: None,
        world_data_replicated: any_status,
        detail: String::from_str(
            "This world is already durably sleeping. Powering off this device will not interrupt a running Minecraft server.",
        ),
        peers: Vec::new(),
    }
}


// ---------------------------------------------------------------------------
// Recovery quorum without the current authority
// ---------------------------------------------------------------------------

/// The index of the first member with this peer id at or after `from`.
pub open spec fn member_index(members: Seq<WorldMember>, peer: Seq<char>, from: int) -> Option<int>
    decreases members.len() - from,
{
    if from < 0 || from >= members.len() {
        None
    } else if members[from].peer_id@ == peer {
        Some(from)
    } else {
        member_index(members, peer, from + 1)
    }
}

/// The membership entry of a peer: its first entry.
pub open spec fn member_of(members: Seq<WorldMember>, peer: Seq<char>) -> Option<WorldMember> {
    match member_index(members, peer, 0) {
        Some(i) => Some(members[i]),
        None => None,
    }
}

/// The number of members that are not banned.
pub open spec fn active_members(members: Seq<WorldMember>) -> nat
    decreases members.len(),
{
    if members.len() == 0 {
        0
    } else {
        active_members(members.drop_last()) + if members.last().banned { 0nat } else { 1nat }
    }
}

/// An observation that counts towards the recovery quorum: a reachable
/// member other than the authority and the local peer, not banned, whose
/// status names the exact canonical head.
pub open spec fn survivor_qualifies(
    o: PeerReadinessObservation,
    local: Seq<char>,
    descriptor: WorldDescriptor,
    epoch: EpochRecord,
    head: CanonicalHead,
) -> bool {
    &&& o.reachable
    &&& o.peer_id@ != epoch.authority_peer_id@
    &&& o.peer_id@ != local
    &&& member_of(descriptor.members@, o.peer_id@) matches Some(m) && !m.banned
    &&& o.status matches Some(st) && status_matches_canonical(st, descriptor, epoch, head)
}

/// The peers that would remain to recover the world without the authority:
/// the local peer and every qualifying observed peer.
pub open spec fn survivors(
    local: Seq<char>,
    descriptor: WorldDescriptor,
    epoch: EpochRecord,
    head: CanonicalHead,
    observations: Seq<PeerReadinessObservation>,
) -> Set<Seq<char>> {
    Set::new(
        |p: Seq<char>|
            p == local || exists|i: int|
                0 <= i < observations.len() && survivor_qualifies(#[trigger] observations[i], local, descriptor, epoch, head)
                    && observations[i].peer_id@ == p,
    )
}

/// The sizes a quorum test compares, or `None` where the local peer cannot
/// take part in recovery: it is the authority, not a member, banned, or not
/// eligible for authority.
pub open spec fn recovery_counts(
    local: Seq<char>,
    descriptor: WorldDescriptor,
    epoch: EpochRecord,
    head: CanonicalHead,
    observations: Seq<PeerReadinessObservation>,
) -> Option<(nat, nat)> {
    if local == epoch.authority_peer_id@ {
        None
    } else {
        match member_of(descriptor.members@, local) {
            None => None,
            Some(m) => if m.banned || !m.authority_eligible {
                None
            } else {
                Some((active_members(descriptor.members@), survivors(local, descriptor, epoch, head, observations).len()))
            },
        }
    }
}

fn find_member<'a>(members: &'a Vec<WorldMember>, peer: &String) -> (r: Option<&'a WorldMember>)
    ensures
        match r {
            Some(m) => member_of(members@, peer@) == Some(*m),
            None => member_of(members@, peer@) is None,
        },
{
    let mut i: usize = 0;
    while i < members.len()
        invariant
            i <= members@.len(),
            member_index(members@, peer@, 0) == member_index(members@, peer@, i as int),
        decreases members@.len() - i,
    {
        if members[i].peer_id == *peer {
            return Some(&members[i]);
        }
        i = i + 1;
    }
    None
}

fn count_active(members: &Vec<WorldMember>) -> (r: usize)
    ensures
        r == active_members(members@),
{
    let mut count: usize = 0;
    let mut i: usize = 0;
    while i < members.len()
        invariant
            i <= members@.len(),
            count == active_members(members@.subrange(0, i as int)),
            count <= i,
        decreases members@.len() - i,
    {
        assert(members@.subrange(0, i + 1).drop_last() =~= members@.subrange(0, i as int));
        if !members[i].banned {
            count = count + 1;
        }
        i = i + 1;
    }
    assert(members@.subrange(0, members@.len() as int) =~= members@);
    count
}

pub open spec fn strings_of(ids: Seq<String>) -> Seq<Seq<char>> {
    ids.map_values(|s: String| s@)
}

fn contains_string(ids: &Vec<String>, id: &String) -> (r: bool)
    ensures
        r == strings_of(ids@).contains(id@),
{
    let mut i: usize = 0;
    while i < ids.len()
        invariant
            i <= ids@.len(),
            forall|k: int| 0 <= k < i ==> (#[trigger] ids@[k])@ != id@,
        decreases ids@.len() - i,
    {
        if ids[i] == *id {
            assert(strings_of(ids@)[i as int] == id@);
            return true;
        }
        i = i + 1;
    }
    assert forall|k: int| 0 <= k < strings_of(ids@).len() implies strings_of(ids@)[k] != id@ by {
        assert(ids@[k]@ != id@);
    }
    false
}

/// The number of active members and the number of peers that would remain
/// to recover the world without the current authority; `None` where the
/// local peer cannot take part in recovery. Whether these form a quorum is
/// the consensus rule's to say.
pub fn recovery_survivors(
    local_peer: &String,
    descriptor: &WorldDescriptor,
    epoch: &EpochRecord,
    head: &CanonicalHead,
    observations: &[PeerReadinessObservation],
) -> (r: Option<(usize, usize)>)
    ensures
        match r {
            Some((members, alive)) => recovery_counts(local_peer@, *descriptor, *epoch, *head, observations@) == Some(
                (members as nat, alive as nat),
            ),
            None => recovery_counts(local_peer@, *descriptor, *epoch, *head, observations@) is None,
        },
{
    if *local_peer == epoch.authority_peer_id {
        return None;
    }
    match find_member(&descriptor.members, local_peer) {
        None => {
            return None;
        },
        Some(m) => {
            if m.banned || !m.authority_eligible {
                return None;
            }
        },
    }
    let ghost target = survivors(local_peer@, *descriptor, *epoch, *head, observations@);
    let mut ids: Vec<String> = Vec::new();
    ids.push(local_peer.clone());
    let mut i: usize = 0;
    assert(strings_of(ids@) =~= seq![local_peer@]);
    assert(strings_of(ids@).to_set() =~= Set::new(
        |p: Seq<char>|
            p == local_peer@ || exists|k: int|
                0 <= k < 0 && survivor_qualifies(#[trigger] observations@[k], local_peer@, *descriptor, *epoch, *head)
                    && observations@[k].peer_id@ == p,
    )) by {
        broadcast use vstd::seq_lib::group_seq_properties;
    }
    while i < observations.len()
        invariant
            i <= observations@.len(),
            ids@.len() <= i + 1,
            strings_of(ids@).no_duplicates(),
            strings_of(ids@).to_set() =~= Set::new(
                |p: Seq<char>|
                    p == local_peer@ || exists|k: int|
                        0 <= k < i && survivor_qualifies(
                            #[trigger] observations@[k],
                            local_peer@,
                            *descriptor,
                            *epoch,
                            *head,
                        ) && observations@[k].peer_id@ == p,
            ),
        decreases observations@.len() - i,
    {
        let o = &observations[i];
        let mut qualifies = false;
        if o.reachable && !(o.peer_id == epoch.authority_peer_id) && !(o.peer_id == *local_peer) {
            match find_member(&descriptor.members, &o.peer_id) {
                Some(m) => {
                    if !m.banned {
                        match &o.status {
                            Some(st) => {
                                qualifies = status_current(st, descriptor, epoch, head);
                            },
                            None => {},
                        }
                    }
                },
                None => {},
            }
        }
        assert(qualifies == survivor_qualifies(*o, local_peer@, *descriptor, *epoch, *head));
        let ghost before = strings_of(ids@);
        if qualifies && !contains_string(&ids, &o.peer_id) {
            ids.push(o.peer_id.clone());
            assert(strings_of(ids@) =~= before.push(o.peer_id@));
        }
        proof {
            broadcast use vstd::seq_lib::group_seq_properties;
            assert(strings_of(ids@).to_set() =~= Set::new(
                |p: Seq<char>|
                    p == local_peer@ || exists|k: int|
                        0 <= k < i + 1 && survivor_qualifies(
                            #[trigger] observations@[k],
                            local_peer@,
                            *descriptor,
                            *epoch,
                            *head,
                        ) && observations@[k].peer_id@ == p,
            )) by {
                let goal = Set::new(
                    |p: Seq<char>|
                        p == local_peer@ || exists|k: int|
                            0 <= k < i + 1 && survivor_qualifies(
                                #[trigger] observations@[k],
                                local_peer@,
                                *descriptor,
                                *epoch,
                                *head,
                            ) && observations@[k].peer_id@ == p,
                );
                assert forall|p: Seq<char>| #[trigger] goal.contains(p) implies strings_of(ids@).to_set().contains(p) by {
                    if p != local_peer@ {
                        let k = choose|k: int|
                            0 <= k < i + 1 && survivor_qualifies(
                                #[trigger] observations@[k],
                                local_peer@,
                                *descriptor,
                                *epoch,
                                *head,
                            ) && observations@[k].peer_id@ == p;
                        if k < i {
                            assert(before.to_set().contains(p));
                            assert(before.contains(p));
                        }
                    } else {
                        assert(before.to_set().contains(p));
                        assert(before.contains(p));
                    }
                }
                assert forall|p: Seq<char>| strings_of(ids@).to_set().contains(p) implies #[trigger] goal.contains(p) by {
                    if strings_of(ids@).contains(p) && before.contains(p) {
                        assert(before.to_set().contains(p));
                    }
                }
            }
        }
        i = i + 1;
    }
    proof {
        strings_of(ids@).unique_seq_to_set();
        assert(strings_of(ids@).to_set() =~= target);
    }
    Some((count_active(&descriptor.members), ids.len()))
}


// ---------------------------------------------------------------------------
// The local host's own capability
// ---------------------------------------------------------------------------

/// The layout version of the runtime and server-mod verification records.
pub const VERIFICATION_SCHEMA: u16 = 1;

/// The runtime verification record written when a runtime was last
/// verified for a world.
pub struct RuntimeVerification {
    pub schema_version: u16,
    pub world_id: String,
    pub compatibility_fingerprint: String,
    pub java: String,
    pub server_jar: String,
    pub mod_jar: String,
    pub server_jar_hash: String,
    pub mod_jar_hash: String,
}

/// What the launch configuration points at, as found on this device.
pub struct LaunchFacts {
    pub java: String,
    pub server_jar: String,
    pub mod_jar: String,
    pub accept_eula: bool,
    pub java_available: bool,
    pub server_jar_present: bool,
    pub mod_jar_present: bool,
}

/// The runtime readiness of this device for a world, as far as it can be
/// told without hashing the JARs: `None` where the answer depends on the
/// JARs' current hashes (see `runtime_hash_readiness`).
pub open spec fn runtime_readiness_spec(
    launch: Option<LaunchFacts>,
    record: Option<RuntimeVerification>,
    world_id: Seq<char>,
    fingerprint: Seq<char>,
) -> Option<HostRuntimeReadiness> {
    match launch {
        None => Some(HostRuntimeReadiness::MissingConfiguration),
        Some(l) => if !l.accept_eula {
            Some(HostRuntimeReadiness::EulaRequired)
        } else if !l.java_available {
            Some(HostRuntimeReadiness::MissingJava)
        } else if !l.server_jar_present {
            Some(HostRuntimeReadiness::MissingServerJar)
        } else if !l.mod_jar_present {
            Some(HostRuntimeReadiness::MissingSwarmCraftMod)
        } else {
            match record {
                None => Some(HostRuntimeReadiness::Unverified),
                Some(r) => if r.schema_version != VERIFICATION_SCHEMA || r.world_id@ != world_id
                    || r.compatibility_fingerprint@ != fingerprint {
                    Some(HostRuntimeReadiness::Incompatible)
                } else if r.java@ != l.java@ || r.server_jar@ != l.server_jar@ || r.mod_jar@ != l.mod_jar@ {
                    Some(HostRuntimeReadiness::Unverified)
                } else {
                    None
                },
            }
        },
    }
}

/// The runtime readiness of this device for a world: missing configuration,
/// EULA, Java or JARs first; then the verification record must be for this
/// world and fingerprint, and for the configured paths. `None` asks for the
/// JARs' current hashes.
pub fn runtime_readiness(
    launch: Option<&LaunchFacts>,
    record: Option<&RuntimeVerification>,
    world_id: &String,
    fingerprint: &String,
) -> (r: Option<HostRuntimeReadiness>)
    ensures
        r == runtime_readiness_spec(
            match launch {
                Some(l) => Some(*l),
                None => None,
            },
            match record {
                Some(v) => Some(*v),
                None => None,
            },
            world_id@,
            fingerprint@,
        ),
{
    let l = match launch {
        None => return Some(HostRuntimeReadiness::MissingConfiguration),
        Some(l) => l,
    };
    if !l.accept_eula {
        return Some(HostRuntimeReadiness::EulaRequired);
    }
    if !l.java_available {
        return Some(HostRuntimeReadiness::MissingJava);
    }
    if !l.server_jar_present {
        return Some(HostRuntimeReadiness::MissingServerJar);
    }
    if !l.mod_jar_present {
        return Some(HostRuntimeReadiness::MissingSwarmCraftMod);
    }
    match record {
        None => Some(HostRuntimeReadiness::Unverified),
        Some(r) => {
            if r.schema_version != VERIFICATION_SCHEMA || !(r.world_id == *world_id) || !(r.compatibility_fingerprint
                == *fingerprint) {
                Some(HostRuntimeReadiness::Incompatible)
            } else if !(r.java == l.java) || !(r.server_jar == l.server_jar) || !(r.mod_jar == l.mod_jar) {
                Some(HostRuntimeReadiness::Unverified)
            } else {
                None
            }
        },
    }
}

/// The last step of the runtime readiness: the JARs still hash to what the
/// record verified.
pub fn runtime_hash_readiness(record: &RuntimeVerification, server_jar_hash: &String, mod_jar_hash: &String) -> (r:
    HostRuntimeReadiness)
    ensures
        r == (if record.server_jar_hash@ == server_jar_hash@ && record.mod_jar_hash@ == mod_jar_hash@ {
            HostRuntimeReadiness::Ready
        } else {
            HostRuntimeReadiness::Incompatible
        }),
{
    if record.server_jar_hash == *server_jar_hash && record.mod_jar_hash == *mod_jar_hash {
        HostRuntimeReadiness::Ready
    } else {
        HostRuntimeReadiness::Incompatible
    }
}

/// The BLAKE3 hash of `data`, as the `blake3` crate computes it.
pub uninterp spec fn blake3_digest(data: Seq<u8>) -> Seq<u8>;

/// `blake3::hash`, taken as its 32 raw bytes; the result is named, not
/// restated, beyond the fixed length of a BLAKE3 hash.
#[verifier::external_body]
fn blake3_of(data: &[u8]) -> (r: Vec<u8>)
    ensures
        r@ == blake3_digest(data@),
        r@.len() == 32,
{
    blake3::hash(data).as_bytes().to_vec()
}

/// The hash that a verification record keeps of a JAR: its BLAKE3 hash as
/// lowercase hex.
pub open spec fn jar_hash_spec(data: Seq<u8>) -> Seq<char> {
    hex_spec(blake3_digest(data))
}

/// The recorded hash of a JAR's bytes.
pub fn jar_hash(data: &[u8]) -> (r: String)
    ensures
        r@ == jar_hash_spec(data@),
        r@.len() == 64,
{
    let digest = blake3_of(data);
    proof {
        crate::text::lemma_hex_spec_len(digest@);
    }
    hex_string(digest.as_slice())
}

/// The last step of the runtime readiness on the JARs themselves: ready when
/// both still hash to what the record verified.
pub fn runtime_jar_readiness(record: &RuntimeVerification, server_jar: &[u8], mod_jar: &[u8]) -> (r:
    HostRuntimeReadiness)
    ensures
        r == (if record.server_jar_hash@ == jar_hash_spec(server_jar@) && record.mod_jar_hash@ == jar_hash_spec(
            mod_jar@,
        ) {
            HostRuntimeReadiness::Ready
        } else {
            HostRuntimeReadiness::Incompatible
        }),
{
    let server_hash = jar_hash(server_jar);
    let mod_hash = jar_hash(mod_jar);
    runtime_hash_readiness(record, &server_hash, &mod_hash)
}

/// The runtime readiness of this device for a world, the JARs' contents
/// included.
pub open spec fn local_runtime_readiness_spec(
    launch: Option<LaunchFacts>,
    record: Option<RuntimeVerification>,
    world_id: Seq<char>,
    fingerprint: Seq<char>,
    server_jar: Seq<u8>,
    mod_jar: Seq<u8>,
) -> HostRuntimeReadiness {
    match runtime_readiness_spec(launch, record, world_id, fingerprint) {
        Some(readiness) => readiness,
        None => if record->0.server_jar_hash@ == jar_hash_spec(server_jar) && record->0.mod_jar_hash@
            == jar_hash_spec(mod_jar) {
            HostRuntimeReadiness::Ready
        } else {
            HostRuntimeReadiness::Incompatible
        },
    }
}

/// The runtime readiness of this device for a world: the checks of
/// `runtime_readiness`, then the configured JARs, whose bytes are given,
/// must hash to what the record verified. The bytes are only hashed when
/// every earlier check passed.
pub fn local_runtime_readiness(
    launch: Option<&LaunchFacts>,
    record: Option<&RuntimeVerification>,
    world_id: &String,
    fingerprint: &String,
    server_jar: &[u8],
    mod_jar: &[u8],
) -> (r: HostRuntimeReadiness)
    ensures
        r == local_runtime_readiness_spec(
            match launch {
                Some(l) => Some(*l),
                None => None,
            },
            match record {
                Some(v) => Some(*v),
                None => None,
            },
            world_id@,
            fingerprint@,
            server_jar@,
            mod_jar@,
        ),
{
    match runtime_readiness(launch, record, world_id, fingerprint) {
        Some(readiness) => readiness,
        None => match record {
            Some(v) => runtime_jar_readiness(v, server_jar, mod_jar),
            None => HostRuntimeReadiness::Unverified,
        },
    }
}

/// Why a runtime cannot be recorded as verified.
#[derive(Debug, Clone, Copy, PartialEq, Eq, Structural)]
pub enum RuntimeRecordError {
    MissingJava,
    MissingServerJar,
    MissingModJar,
}

/// The verification record of a runtime whose Java, server JAR and mod JAR
/// are all present: the configured paths and the hashes of the JARs' bytes.
pub open spec fn runtime_record_fields(
    r: RuntimeVerification,
    world_id: Seq<char>,
    fingerprint: Seq<char>,
    launch: LaunchFacts,
    server_jar: Seq<u8>,
    mod_jar: Seq<u8>,
) -> bool {
    &&& r.schema_version == VERIFICATION_SCHEMA
    &&& r.world_id@ == world_id
    &&& r.compatibility_fingerprint@ == fingerprint
    &&& r.java@ == launch.java@
    &&& r.server_jar@ == launch.server_jar@
    &&& r.mod_jar@ == launch.mod_jar@
    &&& r.server_jar_hash@ == jar_hash_spec(server_jar)
    &&& r.mod_jar_hash@ == jar_hash_spec(mod_jar)
}

/// Builds the record that a runtime was verified: refused while Java, the
/// server JAR or the mod JAR is missing, in that order; otherwise the
/// configured paths with the hashes of the given JAR bytes.
pub fn record_runtime_verified(
    world_id: &String,
    fingerprint: &String,
    launch: &LaunchFacts,
    server_jar: &[u8],
    mod_jar: &[u8],
) -> (r: Result<RuntimeVerification, RuntimeRecordError>)
    ensures
        !launch.java_available ==> r == Err::<RuntimeVerification, RuntimeRecordError>(
            RuntimeRecordError::MissingJava,
        ),
        launch.java_available && !launch.server_jar_present ==> r == Err::<RuntimeVerification, RuntimeRecordError>(
            RuntimeRecordError::MissingServerJar,
        ),
        launch.java_available && launch.server_jar_present && !launch.mod_jar_present ==> r == Err::<
            RuntimeVerification,
            RuntimeRecordError,
        >(RuntimeRecordError::MissingModJar),
        r is Ok <==> launch.java_available && launch.server_jar_present && launch.mod_jar_present,
        r matches Ok(v) ==> runtime_record_fields(v, world_id@, fingerprint@, *launch, server_jar@, mod_jar@),
{
    if !launch.java_available {
        return Err(RuntimeRecordError::MissingJava);
    }
    if !launch.server_jar_present {
        return Err(RuntimeRecordError::MissingServerJar);
    }
    if !launch.mod_jar_present {
        return Err(RuntimeRecordError::MissingModJar);
    }
    Ok(
        RuntimeVerification {
            schema_version: VERIFICATION_SCHEMA,
            world_id: world_id.clone(),
            compatibility_fingerprint: fingerprint.clone(),
            java: launch.java.clone(),
            server_jar: launch.server_jar.clone(),
            mod_jar: launch.mod_jar.clone(),
            server_jar_hash: jar_hash(server_jar),
            mod_jar_hash: jar_hash(mod_jar),
        },
    )
}

/// The server-mod verification record.
pub struct ServerModsVerification {
    pub schema_version: u16,
    pub world_id: String,
    pub compatibility_fingerprint: String,
    pub state: ServerModsReadiness,
}

/// What the world's signed configuration says, where it is here: whether
/// its signature verifies, its compatibility fingerprint, and whether it
/// requires any server mod other than the legacy compatibility marker.
pub struct ConfigFacts {
    pub signature_valid: bool,
    pub fingerprint: String,
    pub has_user_server_mods: bool,
}

pub open spec fn server_mod_readiness_spec(
    config: Option<ConfigFacts>,
    record: Option<ServerModsVerification>,
    world_id: Seq<char>,
    fingerprint: Seq<char>,
) -> ServerModsReadiness {
    match config {
        None => ServerModsReadiness::Unverified,
        Some(c) => if !c.signature_valid || c.fingerprint@ != fingerprint {
            ServerModsReadiness::Incompatible
        } else if !c.has_user_server_mods {
            ServerModsReadiness::Ready
        } else {
            match record {
                None => ServerModsReadiness::Unverified,
                Some(r) => if r.schema_version != VERIFICATION_SCHEMA || r.world_id@ != world_id
                    || r.compatibility_fingerprint@ != fingerprint {
                    ServerModsReadiness::Incompatible
                } else {
                    r.state
                },
            }
        },
    }
}

/// The server-mod readiness of this device for a world: unverified until
/// the signed configuration is here; incompatible where it does not verify
/// or has another fingerprint; ready where it needs no user server mod;
/// else what the verification record for this world and fingerprint says.
pub fn server_mod_readiness(
    config: Option<&ConfigFacts>,
    record: Option<&ServerModsVerification>,
    world_id: &String,
    fingerprint: &String,
) -> (r: ServerModsReadiness)
    ensures
        r == server_mod_readiness_spec(
            match config {
                Some(c) => Some(*c),
                None => None,
            },
            match record {
                Some(v) => Some(*v),
                None => None,
            },
            world_id@,
            fingerprint@,
        ),
{
    let c = match config {
        None => return ServerModsReadiness::Unverified,
        Some(c) => c,
    };
    if !c.signature_valid || !(c.fingerprint == *fingerprint) {
        return ServerModsReadiness::Incompatible;
    }
    if !c.has_user_server_mods {
        return ServerModsReadiness::Ready;
    }
    match record {
        None => ServerModsReadiness::Unverified,
        Some(r) => {
            if r.schema_version != VERIFICATION_SCHEMA || !(r.world_id == *world_id) || !(r.compatibility_fingerprint
                == *fingerprint) {
                ServerModsReadiness::Incompatible
            } else {
                r.state
            }
        },
    }
}

/// The capability this device advertises for a world: its descriptor's
/// fingerprint, and its runtime and server-mod readiness, both incompatible
/// where the descriptor's fingerprint is not the genesis one.
pub fn local_capability(
    world_id: String,
    descriptor_fingerprint: String,
    genesis_fingerprint: &String,
    runtime: HostRuntimeReadiness,
    server_mods: ServerModsReadiness,
    conflict_free: bool,
    recovery_quorum_without_authority: bool,
) -> (r: HostCapability)
    ensures
        r.world_id@ == world_id@,
        r.compatibility_fingerprint@ == descriptor_fingerprint@,
        r.runtime == (if genesis_fingerprint@ != descriptor_fingerprint@ {
            HostRuntimeReadiness::Incompatible
        } else {
            runtime
        }),
        r.server_mods == (if genesis_fingerprint@ != descriptor_fingerprint@ {
            ServerModsReadiness::Incompatible
        } else {
            server_mods
        }),
        r.conflict_free == conflict_free,
        r.recovery_quorum_without_authority == recovery_quorum_without_authority,
{
    let same = *genesis_fingerprint == descriptor_fingerprint;
    HostCapability {
        world_id,
        compatibility_fingerprint: descriptor_fingerprint,
        runtime: if same {
            runtime
        } else {
            HostRuntimeReadiness::Incompatible
        },
        server_mods: if same {
            server_mods
        } else {
            ServerModsReadiness::Incompatible
        },
        conflict_free,
        recovery_quorum_without_authority,
    }
}

/// The JAR hashes are only consulted, and a runtime can only be reported
/// ready, once a verification record for this world, fingerprint and the
/// configured paths exists and nothing is missing: a reconfigured path
/// never keeps a runtime verified.
pub proof fn lemma_runtime_ready_needs_current_proof(
    launch: LaunchFacts,
    record: RuntimeVerification,
    world_id: Seq<char>,
    fingerprint: Seq<char>,
)
    requires
        runtime_readiness_spec(Some(launch), Some(record), world_id, fingerprint) is None,
    ensures
        launch.accept_eula && launch.java_available && launch.server_jar_present && launch.mod_jar_present,
        record.world_id@ == world_id && record.compatibility_fingerprint@ == fingerprint,
        record.java@ == launch.java@ && record.server_jar@ == launch.server_jar@ && record.mod_jar@ == launch.mod_jar@,
{
}

} // verus!
