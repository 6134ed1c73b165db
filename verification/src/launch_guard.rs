//! The direct-launch guard: a sleeping world with more than one active member
//! must wake through a quorum-backed authority transition, never through a
//! local solo launch.
use vstd::prelude::*;

verus! {

#[derive(Debug, Clone, Copy, PartialEq, Eq, Structural)]
pub enum LaunchGuardError {
    /// More than one active member: only a quorum-backed wake may proceed.
    MultiMemberWake,
}

impl LaunchGuardError {
    pub fn message(&self) -> (r: String)
        ensures
            r@ == "multi-member wake requires a quorum-backed authority transition; direct solo authority launch is fail-closed"@,
    {
        String::from_str(
            "multi-member wake requires a quorum-backed authority transition; direct solo authority launch is fail-closed",
        )
    }
}

/// The number of members that are not banned.
pub open spec fn active_count(banned: Seq<bool>) -> nat
    decreases banned.len(),
{
    if banned.len() == 0 {
        0
    } else {
        active_count(banned.drop_last()) + if banned.last() { 0nat } else { 1nat }
    }
}

/// Counts the members whose `banned` flag is clear.
pub fn active_member_count(banned: &[bool]) -> (r: usize)
    ensures
        r == active_count(banned@),
{
    let mut count: usize = 0;
    let mut i: usize = 0;
    while i < banned.len()
        invariant
            i <= banned@.len(),
            count == active_count(banned@.subrange(0, i as int)),
            count <= i,
        decreases banned@.len() - i,
    {
        assert(banned@.subrange(0, i + 1).drop_last() == banned@.subrange(0, i as int));
        if !banned[i] {
            count = count + 1;
        }
        i = i + 1;
    }
    assert(banned@.subrange(0, banned@.len() as int) == banned@);
    count
}

/// A sleeping world may be launched directly only with at most one active
/// member.
pub fn ensure_sleeping_member_count_safe(active_members: usize) -> (r: Result<(), LaunchGuardError>)
    ensures
        r is Ok <==> active_members <= 1,
        r is Err ==> r == Err::<(), LaunchGuardError>(LaunchGuardError::MultiMemberWake),
{
    if active_members > 1 {
        Err(LaunchGuardError::MultiMemberWake)
    } else {
        Ok(())
    }
}

/// The guard applied to a sleeping world's member list, given by each
/// member's `banned` flag.
pub fn ensure_sleeping_world_launch_safe(banned: &[bool]) -> (r: Result<(), LaunchGuardError>)
    ensures
        r is Ok <==> active_count(banned@) <= 1,
{
    let active = active_member_count(banned);
    ensure_sleeping_member_count_safe(active)
}

} // verus!
