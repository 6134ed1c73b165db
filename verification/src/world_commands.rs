//! Decisions of the world commands of the command line: the safety level a
//! world reports, and whether this device may stage a request to leave,
//! stop or wake it.
use vstd::prelude::*;
use crate::authorization::{find_member, member_position, MemberEntry};

verus! {

/// How safe a world's local history is.
#[derive(Debug, Clone, Copy, PartialEq, Eq, Structural)]
pub enum WorldSafetyLevel {
    /// The history is the quorum's canonical one.
    Canonical,
    /// The world advanced alone and is not yet replicated.
    SoloUnreplicated,
    /// Solo histories conflict and need a decision.
    Conflict,
}

/// A recorded solo conflict outranks solo advancement, which outranks a
/// canonical history; solo advancement shows as a solo epoch or a kept solo
/// branch.
pub fn world_safety(has_solo_conflicts: bool, solo_epoch: bool, solo_branch: bool) -> (r: WorldSafetyLevel)
    ensures
        r == (if has_solo_conflicts {
            WorldSafetyLevel::Conflict
        } else if solo_epoch || solo_branch {
            WorldSafetyLevel::SoloUnreplicated
        } else {
            WorldSafetyLevel::Canonical
        }),
{
    if has_solo_conflicts {
        WorldSafetyLevel::Conflict
    } else if solo_epoch || solo_branch {
        WorldSafetyLevel::SoloUnreplicated
    } else {
        WorldSafetyLevel::Canonical
    }
}

/// Why this device may not stage a leave request.
#[derive(Debug, Clone, Copy, PartialEq, Eq, Structural)]
pub enum LeaveRefusal {
    /// The world's membership does not list this device.
    NotMember,
    /// It lists this device banned, or with another key.
    IdentityMismatch,
    /// This device is the authority, which hands authority over first.
    AuthorityMustTransfer,
}

impl LeaveRefusal {
    pub fn message(&self) -> (r: String)
        ensures
            *self == LeaveRefusal::NotMember ==> r@ == "this peer is not an authorized world member"@,
            *self == LeaveRefusal::IdentityMismatch ==> r@ == "local identity does not match canonical membership"@,
            *self == LeaveRefusal::AuthorityMustTransfer ==> r@
                == "the current authority must transfer authority before leaving"@,
    {
        match self {
            LeaveRefusal::NotMember => String::from_str("this peer is not an authorized world member"),
            LeaveRefusal::IdentityMismatch => String::from_str("local identity does not match canonical membership"),
            LeaveRefusal::AuthorityMustTransfer => String::from_str(
                "the current authority must transfer authority before leaving",
            ),
        }
    }
}

/// The check of the local membership entry before a leave request.
pub open spec fn leave_membership_check(members: Seq<MemberEntry>, local_peer: Seq<char>, local_key: Seq<char>) -> Result<
    (),
    LeaveRefusal,
> {
    match find_member(members, local_peer, 0) {
        None => Err(LeaveRefusal::NotMember),
        Some(i) => if members[i].banned || members[i].public_key@ != local_key {
            Err(LeaveRefusal::IdentityMismatch)
        } else {
            Ok(())
        },
    }
}

/// This device may leave only while the world lists it, unbanned, with its
/// own key.
pub fn check_leave_membership(members: &[MemberEntry], local_peer: &String, local_key: &String) -> (r: Result<
    (),
    LeaveRefusal,
>)
    ensures
        r == leave_membership_check(members@, local_peer@, local_key@),
{
    match member_position(members, local_peer) {
        None => Err(LeaveRefusal::NotMember),
        Some(i) => {
            if members[i].banned || !(members[i].public_key == *local_key) {
                Err(LeaveRefusal::IdentityMismatch)
            } else {
                Ok(())
            }
        },
    }
}

/// The authority named by the verified membership record may not leave.
pub fn check_leave_authority(authority_peer: &String, local_peer: &String) -> (r: Result<(), LeaveRefusal>)
    ensures
        r == (if authority_peer@ == local_peer@ {
            Err(LeaveRefusal::AuthorityMustTransfer)
        } else {
            Ok(())
        }),
{
    if *authority_peer == *local_peer {
        Err(LeaveRefusal::AuthorityMustTransfer)
    } else {
        Ok(())
    }
}

/// Why a safe stop or a wake is refused.
#[derive(Debug, Clone, Copy, PartialEq, Eq, Structural)]
pub enum WorldControlRefusal {
    /// Only the current authority stops a world.
    NotAuthority,
    /// The sleep record names another snapshot than the latest verified one.
    SleepRecordStale,
    /// The membership does not list this device.
    NotMember,
    /// It lists this device banned, not eligible for authority, or with
    /// another key.
    NotEligibleToWake,
}

impl WorldControlRefusal {
    pub fn message(&self) -> (r: String)
        ensures
            *self == WorldControlRefusal::NotAuthority ==> r@ == "only the current authority may request a safe world stop"@,
            *self == WorldControlRefusal::SleepRecordStale ==> r@
                == "sleep record does not reference the exact latest verified snapshot"@,
            *self == WorldControlRefusal::NotMember ==> r@ == "local peer is not a world member"@,
            *self == WorldControlRefusal::NotEligibleToWake ==> r@ == "local peer is not eligible to wake this world"@,
    {
        match self {
            WorldControlRefusal::NotAuthority => String::from_str("only the current authority may request a safe world stop"),
            WorldControlRefusal::SleepRecordStale => String::from_str(
                "sleep record does not reference the exact latest verified snapshot",
            ),
            WorldControlRefusal::NotMember => String::from_str("local peer is not a world member"),
            WorldControlRefusal::NotEligibleToWake => String::from_str("local peer is not eligible to wake this world"),
        }
    }
}

/// A safe stop: nothing to do for a world that already sleeps (`Ok(false)`);
/// else only the epoch's authority, by peer and key, writes the stop intent
/// (`Ok(true)`).
pub fn stop_request(
    sleeping: bool,
    authority_peer: &String,
    authority_key: &String,
    local_peer: &String,
    local_key: &String,
) -> (r: Result<bool, WorldControlRefusal>)
    ensures
        r == (if sleeping {
            Ok(false)
        } else if authority_peer@ != local_peer@ || authority_key@ != local_key@ {
            Err(WorldControlRefusal::NotAuthority)
        } else {
            Ok(true)
        }),
{
    if sleeping {
        Ok(false)
    } else if !(*authority_peer == *local_peer) || !(*authority_key == *local_key) {
        Err(WorldControlRefusal::NotAuthority)
    } else {
        Ok(true)
    }
}

/// The checks before waking a sleeping world, once its sleep record and
/// latest snapshot are verified.
pub open spec fn wake_check(
    sleep_snapshot_hash: Seq<char>,
    latest_snapshot_hash: Seq<char>,
    members: Seq<MemberEntry>,
    local_peer: Seq<char>,
    local_key: Seq<char>,
) -> Result<(), WorldControlRefusal> {
    if latest_snapshot_hash != sleep_snapshot_hash {
        Err(WorldControlRefusal::SleepRecordStale)
    } else {
        match find_member(members, local_peer, 0) {
            None => Err(WorldControlRefusal::NotMember),
            Some(i) => if members[i].banned || !members[i].authority_eligible || members[i].public_key@ != local_key {
                Err(WorldControlRefusal::NotEligibleToWake)
            } else {
                Ok(())
            },
        }
    }
}

/// A world wakes only from the exact snapshot its sleep record names, and
/// only through an unbanned, authority-eligible member with its own key.
pub fn check_wake(
    sleep_snapshot_hash: &String,
    latest_snapshot_hash: &String,
    members: &[MemberEntry],
    local_peer: &String,
    local_key: &String,
) -> (r: Result<(), WorldControlRefusal>)
    ensures
        r == wake_check(sleep_snapshot_hash@, latest_snapshot_hash@, members@, local_peer@, local_key@),
{
    if !(*latest_snapshot_hash == *sleep_snapshot_hash) {
        return Err(WorldControlRefusal::SleepRecordStale);
    }
    match member_position(members, local_peer) {
        None => Err(WorldControlRefusal::NotMember),
        Some(i) => {
            if members[i].banned || !members[i].authority_eligible || !(members[i].public_key == *local_key) {
                Err(WorldControlRefusal::NotEligibleToWake)
            } else {
                Ok(())
            }
        },
    }
}

/// Whether this device may take over a world's authority, as the world
/// status reports it.
#[derive(Debug, Clone, Copy, PartialEq, Eq, Structural)]
pub enum Eligibility {
    /// It may host: an eligible, unbanned member whose configuration matches
    /// the genesis and whose server mods are ready.
    Compatible,
    /// Replica only, because the server mods are missing or incompatible.
    ReplicaModsNotReady,
    /// Replica only, because it is not authority eligible.
    ReplicaNotEligible,
}

impl Eligibility {
    pub fn message(&self) -> (r: String)
        ensures
            *self == Eligibility::Compatible ==> r@ == "Compatible"@,
            *self == Eligibility::ReplicaModsNotReady ==> r@ == "Replica only: server mods missing or incompatible"@,
            *self == Eligibility::ReplicaNotEligible ==> r@ == "Replica only: not authority eligible"@,
    {
        match self {
            Eligibility::Compatible => String::from_str("Compatible"),
            Eligibility::ReplicaModsNotReady => String::from_str("Replica only: server mods missing or incompatible"),
            Eligibility::ReplicaNotEligible => String::from_str("Replica only: not authority eligible"),
        }
    }
}

/// A device may host only when it is an eligible member (`eligible`), its
/// configuration matches the world's genesis (`genesis_match`) and its
/// server mods are ready; otherwise missing mods are reported before
/// eligibility.
pub fn authority_eligibility(eligible: bool, genesis_match: bool, mods_ready: bool) -> (r: Eligibility)
    ensures
        r == (if eligible && genesis_match && mods_ready {
            Eligibility::Compatible
        } else if !mods_ready {
            Eligibility::ReplicaModsNotReady
        } else {
            Eligibility::ReplicaNotEligible
        }),
{
    if eligible && genesis_match && mods_ready {
        Eligibility::Compatible
    } else if !mods_ready {
        Eligibility::ReplicaModsNotReady
    } else {
        Eligibility::ReplicaNotEligible
    }
}

/// Snapshot `i` of a chain links to the one before it: the first names no
/// previous manifest, each later one names the hash of its predecessor.
/// Each link is the snapshot's recorded previous-manifest hash and its own
/// manifest hash.
pub open spec fn links_back(links: Seq<(Option<String>, String)>, i: int) -> bool {
    match links[i].0 {
        None => i == 0,
        Some(previous) => i > 0 && previous@ == links[i - 1].1@,
    }
}

/// The first snapshot, in order, that does not link to the one before it;
/// `None` when the whole chain links up.
pub fn first_broken_link(links: &[(Option<String>, String)]) -> (r: Option<usize>)
    ensures
        match r {
            Some(i) => i < links@.len() && !links_back(links@, i as int) && forall|j: int|
                0 <= j < i ==> links_back(links@, j),
            None => forall|j: int| 0 <= j < links@.len() ==> links_back(links@, j),
        },
{
    let mut i: usize = 0;
    while i < links.len()
        invariant
            i <= links@.len(),
            forall|j: int| 0 <= j < i ==> links_back(links@, j),
        decreases links@.len() - i,
    {
        let linked = match &links[i].0 {
            None => i == 0,
            Some(previous) => i > 0 && *previous == links[i - 1].1,
        };
        if !linked {
            return Some(i);
        }
        i = i + 1;
    }
    None
}

} // verus!
