//! How the current authority answers a peer's request to join or to leave a
//! world: which requests it refuses, when the membership already says yes,
//! when a durably prepared transition is offered again, and which membership
//! it proposes otherwise. Signatures, record hashes and storage are the
//! caller's; each function is one step of the decision, in the order taken.
use vstd::prelude::*;
use crate::authorization::{find_member, member_position, MemberEntry};

verus! {

/// Why a join or leave request is refused.
#[derive(Debug, Clone, Copy, PartialEq, Eq, Structural)]
pub enum MembershipRequestError {
    JoinIdentityMismatch,
    InviteGenesisMismatch,
    JoinNotLocalAuthority,
    InviteNotFromAuthority,
    InviteSignerNotMember,
    InviteSignerRejected,
    JoiningPeerConflicts,
    TransitionPrepared,
    SequenceExhausted,
    LeaveIdentityMismatch,
    LeaveNotLocalAuthority,
    AuthorityCannotLeave,
    StaleMembership,
    LeavingPeerNotMember,
    LeavingKeyMismatch,
    NotVoter,
    VoterKeyMismatch,
    ProposalNotExtending,
    NoCommittedOrPendingJoin,
    PendingJoinExpired,
    ProposalNotStagedJoin,
    CertificateNotExtending,
    CertificateConflictsPrepare,
}

pub open spec fn request_error_text(e: MembershipRequestError) -> Seq<char> {
    match e {
        MembershipRequestError::JoinIdentityMismatch => "join request transport identity does not match joining peer"@,
        MembershipRequestError::InviteGenesisMismatch => "invite does not match local world genesis"@,
        MembershipRequestError::JoinNotLocalAuthority => "only the current local authority may accept a join request"@,
        MembershipRequestError::InviteNotFromAuthority => "join invite was not issued by the current authority"@,
        MembershipRequestError::InviteSignerNotMember => "invite signer is not a current world member"@,
        MembershipRequestError::InviteSignerRejected =>
            "invite signer is banned or key does not match current membership"@,
        MembershipRequestError::JoiningPeerConflicts => "joining peer conflicts with existing membership"@,
        MembershipRequestError::TransitionPrepared => "another membership transition is already durably prepared"@,
        MembershipRequestError::SequenceExhausted => "membership sequence counter exhausted"@,
        MembershipRequestError::LeaveIdentityMismatch =>
            "leave request transport identity does not match leaving peer"@,
        MembershipRequestError::LeaveNotLocalAuthority =>
            "only the current local authority may accept a leave request"@,
        MembershipRequestError::AuthorityCannotLeave => "authority must transfer authority before leaving"@,
        MembershipRequestError::StaleMembership => "leave request references stale membership"@,
        MembershipRequestError::LeavingPeerNotMember => "leaving peer is not a current world member"@,
        MembershipRequestError::LeavingKeyMismatch => "leaving peer key does not match current membership"@,
        MembershipRequestError::NotVoter => "local peer is not an active voter in either membership configuration"@,
        MembershipRequestError::VoterKeyMismatch => "local peer key does not match the membership proposal"@,
        MembershipRequestError::ProposalNotExtending =>
            "membership proposal does not extend the locally committed configuration"@,
        MembershipRequestError::NoCommittedOrPendingJoin =>
            "new membership voter has neither committed membership nor a pending join"@,
        MembershipRequestError::PendingJoinExpired => "pending join invite expired before membership commit"@,
        MembershipRequestError::ProposalNotStagedJoin => "membership proposal does not match the locally staged join"@,
        MembershipRequestError::CertificateNotExtending =>
            "membership certificate does not extend the locally committed configuration"@,
        MembershipRequestError::CertificateConflictsPrepare =>
            "membership certificate conflicts with this peer's durable prepare"@,
    }
}

impl MembershipRequestError {
    /// The error's text.
    pub fn message(&self) -> (r: &'static str)
        ensures
            r@ == request_error_text(*self),
    {
        match self {
            MembershipRequestError::JoinIdentityMismatch => "join request transport identity does not match joining peer",
            MembershipRequestError::InviteGenesisMismatch => "invite does not match local world genesis",
            MembershipRequestError::JoinNotLocalAuthority =>
                "only the current local authority may accept a join request",
            MembershipRequestError::InviteNotFromAuthority => "join invite was not issued by the current authority",
            MembershipRequestError::InviteSignerNotMember => "invite signer is not a current world member",
            MembershipRequestError::InviteSignerRejected =>
                "invite signer is banned or key does not match current membership",
            MembershipRequestError::JoiningPeerConflicts => "joining peer conflicts with existing membership",
            MembershipRequestError::TransitionPrepared =>
                "another membership transition is already durably prepared",
            MembershipRequestError::SequenceExhausted => "membership sequence counter exhausted",
            MembershipRequestError::LeaveIdentityMismatch =>
                "leave request transport identity does not match leaving peer",
            MembershipRequestError::LeaveNotLocalAuthority =>
                "only the current local authority may accept a leave request",
            MembershipRequestError::AuthorityCannotLeave => "authority must transfer authority before leaving",
            MembershipRequestError::StaleMembership => "leave request references stale membership",
            MembershipRequestError::LeavingPeerNotMember => "leaving peer is not a current world member",
            MembershipRequestError::LeavingKeyMismatch => "leaving peer key does not match current membership",
            MembershipRequestError::NotVoter => "local peer is not an active voter in either membership configuration",
            MembershipRequestError::VoterKeyMismatch => "local peer key does not match the membership proposal",
            MembershipRequestError::ProposalNotExtending =>
                "membership proposal does not extend the locally committed configuration",
            MembershipRequestError::NoCommittedOrPendingJoin =>
                "new membership voter has neither committed membership nor a pending join",
            MembershipRequestError::PendingJoinExpired => "pending join invite expired before membership commit",
            MembershipRequestError::ProposalNotStagedJoin => "membership proposal does not match the locally staged join",
            MembershipRequestError::CertificateNotExtending =>
                "membership certificate does not extend the locally committed configuration",
            MembershipRequestError::CertificateConflictsPrepare =>
                "membership certificate conflicts with this peer's durable prepare",
        }
    }
}

/// What a member entry says, without the derived peer id.
pub struct MemberFacts {
    pub peer_id: Seq<char>,
    pub public_key: Seq<char>,
    pub authority_eligible: bool,
    pub banned: bool,
}

pub open spec fn facts(m: MemberEntry) -> MemberFacts {
    MemberFacts {
        peer_id: m.peer_id@,
        public_key: m.public_key@,
        authority_eligible: m.authority_eligible,
        banned: m.banned,
    }
}

pub open spec fn facts_of(members: Seq<MemberEntry>) -> Seq<MemberFacts> {
    members.map_values(|m: MemberEntry| facts(m))
}

/// The current membership record, as far as the decision reads it.
pub struct CurrentMembership {
    pub authority_peer_id: String,
    pub authority_public_key: String,
    pub sequence: u64,
}

/// A membership transition this device has durably prepared: whether it
/// extends the current record (its previous record hashes the same), its
/// proposed members and its sequence.
pub struct PreparedTransition {
    pub extends_current: bool,
    pub proposed_members: Vec<MemberEntry>,
    pub proposed_sequence: u64,
}

/// How the authority answers an acceptable request.
pub enum MembershipAnswer {
    /// The membership already reflects the request: accepted at this sequence.
    AlreadyDone(u64),
    /// The prepared transition already makes the change: offer it again and
    /// accept at its sequence.
    OfferPrepared(u64),
    /// Propose the next membership: these members, at this sequence.
    Propose(Vec<MemberEntry>, u64),
}

fn same_member(a: &MemberEntry, b: &MemberEntry) -> (r: bool)
    ensures
        r == (facts(*a) == facts(*b)),
{
    a.peer_id == b.peer_id && a.public_key == b.public_key && a.authority_eligible == b.authority_eligible
        && a.banned == b.banned
}

fn clone_member(m: &MemberEntry) -> (c: MemberEntry)
    ensures
        facts(c) == facts(*m),
        c.key_peer_id@ == m.key_peer_id@,
{
    MemberEntry {
        peer_id: m.peer_id.clone(),
        public_key: m.public_key.clone(),
        key_peer_id: m.key_peer_id.clone(),
        authority_eligible: m.authority_eligible,
        banned: m.banned,
    }
}

// ---------------------------------------------------------------------------
// Joining
// ---------------------------------------------------------------------------

/// A join request is sent by the peer that asks to join.
pub fn check_join_sender(transport_peer: &String, joining_peer: &String) -> (r: Result<(), MembershipRequestError>)
    ensures
        r is Ok <==> transport_peer@ == joining_peer@,
        r is Err ==> r == Err::<(), MembershipRequestError>(MembershipRequestError::JoinIdentityMismatch),
{
    if *transport_peer == *joining_peer {
        Ok(())
    } else {
        Err(MembershipRequestError::JoinIdentityMismatch)
    }
}

/// The invite is for this world: its genesis names the world and the
/// world's compatibility fingerprint.
pub fn check_invite_genesis(
    invite_world: &String,
    invite_fingerprint: &String,
    world: &String,
    fingerprint: &String,
) -> (r: Result<(), MembershipRequestError>)
    ensures
        r is Ok <==> (invite_world@ == world@ && invite_fingerprint@ == fingerprint@),
        r is Err ==> r == Err::<(), MembershipRequestError>(MembershipRequestError::InviteGenesisMismatch),
{
    if *invite_world == *world && *invite_fingerprint == *fingerprint {
        Ok(())
    } else {
        Err(MembershipRequestError::InviteGenesisMismatch)
    }
}

/// The position in `members` of the first entry with the peer id of `m`,
/// compared by its facts.
pub open spec fn first_with_peer(members: Seq<MemberEntry>, peer: Seq<char>) -> Option<MemberFacts> {
    match find_member(members, peer, 0) {
        Some(i) => Some(facts(members[i])),
        None => None,
    }
}

/// Whether `members` lists `m` (its first entry with `m`'s peer id is `m`).
pub open spec fn lists_exactly(members: Seq<MemberEntry>, m: MemberEntry) -> bool {
    first_with_peer(members, m.peer_id@) == Some(facts(m))
}

/// The answer to a join request once the request, its invite and the
/// membership record are authentic.
pub open spec fn join_answer(
    local_peer: Seq<char>,
    local_key: Seq<char>,
    current: CurrentMembership,
    inviter_peer: Seq<char>,
    inviter_key: Seq<char>,
    descriptor: Seq<MemberEntry>,
    joining: MemberEntry,
    prepared: Option<PreparedTransition>,
) -> Result<(bool, u64), MembershipRequestError> {
    if current.authority_peer_id@ != local_peer || current.authority_public_key@ != local_key {
        Err(MembershipRequestError::JoinNotLocalAuthority)
    } else if inviter_peer != current.authority_peer_id@ || inviter_key != current.authority_public_key@ {
        Err(MembershipRequestError::InviteNotFromAuthority)
    } else {
        match find_member(descriptor, inviter_peer, 0) {
            None => Err(MembershipRequestError::InviteSignerNotMember),
            Some(i) => if descriptor[i].banned || descriptor[i].public_key@ != inviter_key {
                Err(MembershipRequestError::InviteSignerRejected)
            } else {
                match find_member(descriptor, joining.peer_id@, 0) {
                    Some(j) => if descriptor[j].public_key@ != joining.public_key@ || descriptor[j].banned {
                        Err(MembershipRequestError::JoiningPeerConflicts)
                    } else {
                        Ok((true, current.sequence))
                    },
                    None => match prepared {
                        Some(p) => if p.extends_current && lists_exactly(p.proposed_members@, joining) {
                            Ok((false, p.proposed_sequence))
                        } else {
                            Err(MembershipRequestError::TransitionPrepared)
                        },
                        None => if current.sequence == u64::MAX {
                            Err(MembershipRequestError::SequenceExhausted)
                        } else {
                            Ok((false, (current.sequence + 1) as u64))
                        },
                    },
                }
            },
        }
    }
}

/// How the current authority answers an authentic join request: only the
/// local authority accepts, for an invite it issued and still may issue; a
/// peer already listed with the same key is accepted at the current
/// sequence; a prepared transition that adds exactly this peer is offered
/// again; otherwise the next membership adds the peer, one sequence on.
/// Any other prepared transition, or a listed peer with another key or
/// banned, refuses the request.
pub fn answer_join(
    local_peer: &String,
    local_key: &String,
    current: &CurrentMembership,
    inviter_peer: &String,
    inviter_key: &String,
    descriptor: &[MemberEntry],
    joining: &MemberEntry,
    prepared: Option<&PreparedTransition>,
) -> (r: Result<MembershipAnswer, MembershipRequestError>)
    ensures
        match join_answer(
            local_peer@,
            local_key@,
            *current,
            inviter_peer@,
            inviter_key@,
            descriptor@,
            *joining,
            match prepared {
                Some(p) => Some(*p),
                None => None,
            },
        ) {
            Err(e) => r == Err::<MembershipAnswer, MembershipRequestError>(e),
            Ok((true, seq)) => r matches Ok(MembershipAnswer::AlreadyDone(s)) && s == seq,
            Ok((false, seq)) => match prepared {
                Some(_) => r matches Ok(MembershipAnswer::OfferPrepared(s)) && s == seq,
                None => r matches Ok(MembershipAnswer::Propose(members, s)) && s == seq && facts_of(members@)
                    == facts_of(descriptor@).push(facts(*joining)),
            },
        },
{
    if !(current.authority_peer_id == *local_peer) || !(current.authority_public_key == *local_key) {
        return Err(MembershipRequestError::JoinNotLocalAuthority);
    }
    if !(*inviter_peer == current.authority_peer_id) || !(*inviter_key == current.authority_public_key) {
        return Err(MembershipRequestError::InviteNotFromAuthority);
    }
    match member_position(descriptor, inviter_peer) {
        None => return Err(MembershipRequestError::InviteSignerNotMember),
        Some(i) => {
            if descriptor[i].banned || !(descriptor[i].public_key == *inviter_key) {
                return Err(MembershipRequestError::InviteSignerRejected);
            }
        },
    }
    match member_position(descriptor, &joining.peer_id) {
        Some(j) => {
            if !(descriptor[j].public_key == joining.public_key) || descriptor[j].banned {
                return Err(MembershipRequestError::JoiningPeerConflicts);
            }
            return Ok(MembershipAnswer::AlreadyDone(current.sequence));
        },
        None => {},
    }
    match prepared {
        Some(p) => {
            let proposed = p.proposed_members.as_slice();
            assert(proposed@ == p.proposed_members@);
            let listed = match member_position(proposed, &joining.peer_id) {
                Some(k) => {
                    let same = same_member(&p.proposed_members[k], joining);
                    assert(first_with_peer(p.proposed_members@, joining.peer_id@) == Some(
                        facts(p.proposed_members@[k as int]),
                    ));
                    same
                },
                None => false,
            };
            assert(listed == lists_exactly(p.proposed_members@, *joining));
            if p.extends_current && listed {
                Ok(MembershipAnswer::OfferPrepared(p.proposed_sequence))
            } else {
                Err(MembershipRequestError::TransitionPrepared)
            }
        },
        None => {
            if current.sequence == u64::MAX {
                return Err(MembershipRequestError::SequenceExhausted);
            }
            let mut members: Vec<MemberEntry> = Vec::new();
            let mut i: usize = 0;
            while i < descriptor.len()
                invariant
                    i <= descriptor@.len(),
                    facts_of(members@) == facts_of(descriptor@.subrange(0, i as int)),
                decreases descriptor@.len() - i,
            {
                let ghost before = members@;
                members.push(clone_member(&descriptor[i]));
                proof {
                    assert(facts_of(members@) =~= facts_of(before).push(facts(descriptor@[i as int])));
                    assert(facts_of(descriptor@.subrange(0, i + 1)) =~= facts_of(descriptor@.subrange(0, i as int)).push(
                        facts(descriptor@[i as int]),
                    ));
                }
                i = i + 1;
            }
            let ghost before = members@;
            members.push(clone_member(joining));
            proof {
                assert(descriptor@.subrange(0, descriptor@.len() as int) =~= descriptor@);
                assert(facts_of(members@) =~= facts_of(before).push(facts(*joining)));
            }
            Ok(MembershipAnswer::Propose(members, current.sequence + 1))
        },
    }
}

// ---------------------------------------------------------------------------
// Leaving
// ---------------------------------------------------------------------------

/// A leave request is sent by the peer that leaves.
pub fn check_leave_sender(transport_peer: &String, leaving_peer: &String) -> (r: Result<(), MembershipRequestError>)
    ensures
        r is Ok <==> transport_peer@ == leaving_peer@,
        r is Err ==> r == Err::<(), MembershipRequestError>(MembershipRequestError::LeaveIdentityMismatch),
{
    if *transport_peer == *leaving_peer {
        Ok(())
    } else {
        Err(MembershipRequestError::LeaveIdentityMismatch)
    }
}

/// `members` without any entry of `peer`, in order.
pub open spec fn without_peer(members: Seq<MemberEntry>, peer: Seq<char>) -> Seq<MemberFacts>
    decreases members.len(),
{
    if members.len() == 0 {
        Seq::empty()
    } else {
        let earlier = without_peer(members.drop_last(), peer);
        if members.last().peer_id@ == peer {
            earlier
        } else {
            earlier.push(facts(members.last()))
        }
    }
}

/// No entry of `members` is `peer`'s.
pub open spec fn lists_none_of(members: Seq<MemberEntry>, peer: Seq<char>) -> bool {
    forall|i: int| 0 <= i < members.len() ==> (#[trigger] members[i]).peer_id@ != peer
}

/// The answer to a leave request once the request and the membership record
/// are authentic; `current_hash` is the current record's hash and
/// `request_hash` the one the request names.
pub open spec fn leave_answer(
    local_peer: Seq<char>,
    local_key: Seq<char>,
    current: CurrentMembership,
    current_hash: Seq<char>,
    request_hash: Seq<char>,
    descriptor: Seq<MemberEntry>,
    leaving_peer: Seq<char>,
    leaving_key: Seq<char>,
    prepared: Option<PreparedTransition>,
) -> Result<u64, MembershipRequestError> {
    if current.authority_peer_id@ != local_peer || current.authority_public_key@ != local_key {
        Err(MembershipRequestError::LeaveNotLocalAuthority)
    } else if leaving_peer == current.authority_peer_id@ {
        Err(MembershipRequestError::AuthorityCannotLeave)
    } else if current_hash != request_hash {
        Err(MembershipRequestError::StaleMembership)
    } else {
        match find_member(descriptor, leaving_peer, 0) {
            None => Err(MembershipRequestError::LeavingPeerNotMember),
            Some(i) => if descriptor[i].banned || descriptor[i].public_key@ != leaving_key {
                Err(MembershipRequestError::LeavingKeyMismatch)
            } else {
                match prepared {
                    Some(p) => if p.extends_current && lists_none_of(p.proposed_members@, leaving_peer) {
                        Ok(p.proposed_sequence)
                    } else {
                        Err(MembershipRequestError::TransitionPrepared)
                    },
                    None => if current.sequence == u64::MAX {
                        Err(MembershipRequestError::SequenceExhausted)
                    } else {
                        Ok((current.sequence + 1) as u64)
                    },
                }
            },
        }
    }
}

/// How the current authority answers an authentic leave request: only the
/// local authority accepts, never its own leaving, and only against the
/// current membership; the leaving peer must be listed, unbanned, with its
/// key. A prepared transition that already drops the peer is offered again;
/// otherwise the next membership drops every entry of the peer, one sequence
/// on.
pub fn answer_leave(
    local_peer: &String,
    local_key: &String,
    current: &CurrentMembership,
    current_hash: &String,
    request_hash: &String,
    descriptor: &[MemberEntry],
    leaving_peer: &String,
    leaving_key: &String,
    prepared: Option<&PreparedTransition>,
) -> (r: Result<MembershipAnswer, MembershipRequestError>)
    ensures
        match leave_answer(
            local_peer@,
            local_key@,
            *current,
            current_hash@,
            request_hash@,
            descriptor@,
            leaving_peer@,
            leaving_key@,
            match prepared {
                Some(p) => Some(*p),
                None => None,
            },
        ) {
            Err(e) => r == Err::<MembershipAnswer, MembershipRequestError>(e),
            Ok(seq) => match prepared {
                Some(_) => r matches Ok(MembershipAnswer::OfferPrepared(s)) && s == seq,
                None => r matches Ok(MembershipAnswer::Propose(members, s)) && s == seq && facts_of(members@)
                    == without_peer(descriptor@, leaving_peer@),
            },
        },
{
    if !(current.authority_peer_id == *local_peer) || !(current.authority_public_key == *local_key) {
        return Err(MembershipRequestError::LeaveNotLocalAuthority);
    }
    if *leaving_peer == current.authority_peer_id {
        return Err(MembershipRequestError::AuthorityCannotLeave);
    }
    if !(*current_hash == *request_hash) {
        return Err(MembershipRequestError::StaleMembership);
    }
    match member_position(descriptor, leaving_peer) {
        None => return Err(MembershipRequestError::LeavingPeerNotMember),
        Some(i) => {
            if descriptor[i].banned || !(descriptor[i].public_key == *leaving_key) {
                return Err(MembershipRequestError::LeavingKeyMismatch);
            }
        },
    }
    match prepared {
        Some(p) => {
            let mut absent = true;
            let mut k: usize = 0;
            while k < p.proposed_members.len()
                invariant
                    k <= p.proposed_members@.len(),
                    absent == (forall|j: int| 0 <= j < k ==> (#[trigger] p.proposed_members@[j]).peer_id@ != leaving_peer@),
                decreases p.proposed_members@.len() - k,
            {
                if p.proposed_members[k].peer_id == *leaving_peer {
                    absent = false;
                }
                k = k + 1;
            }
            if p.extends_current && absent {
                Ok(MembershipAnswer::OfferPrepared(p.proposed_sequence))
            } else {
                Err(MembershipRequestError::TransitionPrepared)
            }
        },
        None => {
            if current.sequence == u64::MAX {
                return Err(MembershipRequestError::SequenceExhausted);
            }
            let mut members: Vec<MemberEntry> = Vec::new();
            let mut i: usize = 0;
            while i < descriptor.len()
                invariant
                    i <= descriptor@.len(),
                    facts_of(members@) == without_peer(descriptor@.subrange(0, i as int), leaving_peer@),
                decreases descriptor@.len() - i,
            {
                proof {
                    assert(descriptor@.subrange(0, i + 1).drop_last() =~= descriptor@.subrange(0, i as int));
                    assert(descriptor@.subrange(0, i + 1).last() == descriptor@[i as int]);
                }
                if !(descriptor[i].peer_id == *leaving_peer) {
                    let ghost before = members@;
                    members.push(clone_member(&descriptor[i]));
                    assert(facts_of(members@) =~= facts_of(before).push(facts(descriptor@[i as int])));
                }
                i = i + 1;
            }
            assert(descriptor@.subrange(0, descriptor@.len() as int) =~= descriptor@);
            Ok(MembershipAnswer::Propose(members, current.sequence + 1))
        },
    }
}

/// A proposed membership after a leave no longer lists the leaving peer.
pub proof fn lemma_leave_drops_the_peer(members: Seq<MemberEntry>, peer: Seq<char>)
    ensures
        forall|i: int| 0 <= i < without_peer(members, peer).len() ==> (#[trigger] without_peer(members, peer)[i]).peer_id != peer,
    decreases members.len(),
{
    if members.len() > 0 {
        lemma_leave_drops_the_peer(members.drop_last(), peer);
        let earlier = without_peer(members.drop_last(), peer);
        if members.last().peer_id@ != peer {
            let all = earlier.push(facts(members.last()));
            assert forall|i: int| 0 <= i < all.len() implies (#[trigger] all[i]).peer_id != peer by {
                if i < earlier.len() {
                    assert(all[i] == earlier[i]);
                }
            }
        }
    }
}


// ---------------------------------------------------------------------------
// Joint membership proposals and certificates
// ---------------------------------------------------------------------------

/// The first active (unbanned) entry of `peer` in the previous members, then
/// in the proposed ones.
pub open spec fn active_voter(previous: Seq<MemberEntry>, proposed: Seq<MemberEntry>, peer: Seq<char>) -> Option<
    MemberFacts,
> {
    match first_active(previous, peer, 0) {
        Some(i) => Some(facts(previous[i])),
        None => match first_active(proposed, peer, 0) {
            Some(i) => Some(facts(proposed[i])),
            None => None,
        },
    }
}

/// The position of the first unbanned entry of `peer` at or after `from`.
pub open spec fn first_active(members: Seq<MemberEntry>, peer: Seq<char>, from: int) -> Option<int>
    decreases members.len() - from,
{
    if from < 0 || from >= members.len() {
        None
    } else if members[from].peer_id@ == peer && !members[from].banned {
        Some(from)
    } else {
        first_active(members, peer, from + 1)
    }
}

fn first_active_exec(members: &[MemberEntry], peer: &String) -> (r: Option<usize>)
    ensures
        match first_active(members@, peer@, 0) {
            Some(i) => r matches Some(k) && k as int == i && i < members@.len(),
            None => r is None,
        },
{
    let mut i: usize = 0;
    while i < members.len()
        invariant
            i <= members@.len(),
            first_active(members@, peer@, 0) == first_active(members@, peer@, i as int),
        decreases members@.len() - i,
    {
        if members[i].peer_id == *peer && !members[i].banned {
            proof {
                assert(first_active(members@, peer@, i as int) == Some(i as int));
            }
            return Some(i);
        }
        i = i + 1;
    }
    None
}

/// The join this device staged for the world, as the checks read it.
pub struct StagedJoin {
    pub member: MemberEntry,
    pub inviter_peer_id: String,
    pub inviter_public_key: String,
    pub invite_expires_unix_ms: u64,
}

/// The previous configuration's signing authority.
pub struct PreviousAuthority {
    pub peer_id: String,
    pub public_key: String,
}

pub open spec fn proposal_for_local(
    local_peer: Seq<char>,
    local_key: Seq<char>,
    previous: Seq<MemberEntry>,
    proposed: Seq<MemberEntry>,
    previous_authority: PreviousAuthority,
    committed_extends: Option<bool>,
    join: Option<StagedJoin>,
    now_unix_ms: u64,
) -> Result<(), MembershipRequestError> {
    match active_voter(previous, proposed, local_peer) {
        None => Err(MembershipRequestError::NotVoter),
        Some(m) => if m.public_key != local_key {
            Err(MembershipRequestError::VoterKeyMismatch)
        } else {
            match committed_extends {
                Some(extends) => if extends {
                    Ok(())
                } else {
                    Err(MembershipRequestError::ProposalNotExtending)
                },
                None => match join {
                    None => Err(MembershipRequestError::NoCommittedOrPendingJoin),
                    Some(j) => if j.invite_expires_unix_ms < now_unix_ms {
                        Err(MembershipRequestError::PendingJoinExpired)
                    } else if j.member.peer_id@ != local_peer || j.member.public_key@ != local_key
                        || first_with_peer(proposed, local_peer) != Some(facts(j.member)) || j.inviter_peer_id@
                        != previous_authority.peer_id@ || j.inviter_public_key@ != previous_authority.public_key@ {
                        Err(MembershipRequestError::ProposalNotStagedJoin)
                    } else {
                        Ok(())
                    },
                },
            }
        },
    }
}

/// Whether this device may vote for a joint membership proposal: it is an
/// active voter in one of the two configurations, with its own key; the
/// proposal extends its committed configuration, or, where it has none yet,
/// the proposal admits exactly the join it staged, from the inviting
/// authority, before the invite expired. `committed_extends` says, where a
/// configuration is committed here, whether the proposal's previous record
/// hashes the same.
pub fn check_proposal_for_local(
    local_peer: &String,
    local_key: &String,
    previous: &[MemberEntry],
    proposed: &[MemberEntry],
    previous_authority: &PreviousAuthority,
    committed_extends: Option<bool>,
    join: Option<&StagedJoin>,
    now_unix_ms: u64,
) -> (r: Result<(), MembershipRequestError>)
    ensures
        r == proposal_for_local(
            local_peer@,
            local_key@,
            previous@,
            proposed@,
            *previous_authority,
            committed_extends,
            match join {
                Some(j) => Some(*j),
                None => None,
            },
            now_unix_ms,
        ),
{
    let voter_key = match first_active_exec(previous, local_peer) {
        Some(i) => &previous[i].public_key,
        None => match first_active_exec(proposed, local_peer) {
            Some(i) => &proposed[i].public_key,
            None => return Err(MembershipRequestError::NotVoter),
        },
    };
    if !(*voter_key == *local_key) {
        return Err(MembershipRequestError::VoterKeyMismatch);
    }
    match committed_extends {
        Some(extends) => {
            if extends {
                Ok(())
            } else {
                Err(MembershipRequestError::ProposalNotExtending)
            }
        },
        None => match join {
            None => Err(MembershipRequestError::NoCommittedOrPendingJoin),
            Some(j) => {
                if j.invite_expires_unix_ms < now_unix_ms {
                    return Err(MembershipRequestError::PendingJoinExpired);
                }
                let listed = match member_position(proposed, local_peer) {
                    Some(k) => {
                        let same = same_member(&proposed[k], &j.member);
                        assert(first_with_peer(proposed@, local_peer@) == Some(facts(proposed@[k as int])));
                        same
                    },
                    None => false,
                };
                if !(j.member.peer_id == *local_peer) || !(j.member.public_key == *local_key) || !listed
                    || !(j.inviter_peer_id == previous_authority.peer_id) || !(j.inviter_public_key
                    == previous_authority.public_key) {
                    Err(MembershipRequestError::ProposalNotStagedJoin)
                } else {
                    Ok(())
                }
            },
        },
    }
}

/// The committed configuration against a certificate: whether it is the
/// certificate's proposed record, and whether it is its previous one.
pub struct CommittedAgainstCertificate {
    pub is_proposed: bool,
    pub is_previous: bool,
}

/// Whether this device may apply a joint membership certificate whose
/// signatures and shape are valid: a committed configuration must be the
/// certificate's previous or proposed one (with none, the outcome of the
/// proposal checks for a new voter, `proposal_check`, applies); and a
/// durable prepare here must be for the same proposal.
pub fn check_certificate_for_local(
    committed: Option<&CommittedAgainstCertificate>,
    proposal_check: Result<(), MembershipRequestError>,
    prepare_matches: Option<bool>,
) -> (r: Result<(), MembershipRequestError>)
    ensures
        match committed {
            Some(c) => if !c.is_proposed && !c.is_previous {
                r == Err::<(), MembershipRequestError>(MembershipRequestError::CertificateNotExtending)
            } else {
                (prepare_matches == Some(false) ==> r == Err::<(), MembershipRequestError>(
                    MembershipRequestError::CertificateConflictsPrepare,
                )) && (prepare_matches != Some(false) ==> r is Ok)
            },
            None => match proposal_check {
                Err(e) => r == Err::<(), MembershipRequestError>(e),
                Ok(_) => (prepare_matches == Some(false) ==> r == Err::<(), MembershipRequestError>(
                    MembershipRequestError::CertificateConflictsPrepare,
                )) && (prepare_matches != Some(false) ==> r is Ok),
            },
        },
{
    match committed {
        Some(c) => {
            if !c.is_proposed && !c.is_previous {
                return Err(MembershipRequestError::CertificateNotExtending);
            }
        },
        None => match proposal_check {
            Err(e) => return Err(e),
            Ok(_) => {},
        },
    }
    match prepare_matches {
        Some(false) => Err(MembershipRequestError::CertificateConflictsPrepare),
        _ => Ok(()),
    }
}

/// What to do with a durably stored certificate on restart.
#[derive(Debug, Clone, Copy, PartialEq, Eq, Structural)]
pub enum StoredCertificateStep {
    /// The committed record is the certificate's: only clear the prepare.
    ClearPrepare,
    /// A later membership generation supersedes it: leave it as evidence.
    Superseded,
    /// Check it for this device and apply it.
    Apply,
}

/// `(epoch, sequence)` of `a` is later than that of `b`.
pub open spec fn later_generation(a: (u64, u64), b: (u64, u64)) -> bool {
    a.0 > b.0 || (a.0 == b.0 && a.1 > b.1)
}

/// What to do with a stored certificate given the committed record, where
/// there is one: whether it is the certificate's proposed record, and its
/// epoch and sequence; `proposed` is the certificate's epoch and sequence.
pub fn stored_certificate_step(committed: Option<(bool, u64, u64)>, proposed: (u64, u64)) -> (r: StoredCertificateStep)
    ensures
        match committed {
            Some((same, epoch, sequence)) => if same {
                r == StoredCertificateStep::ClearPrepare
            } else if later_generation((epoch, sequence), proposed) {
                r == StoredCertificateStep::Superseded
            } else {
                r == StoredCertificateStep::Apply
            },
            None => r == StoredCertificateStep::Apply,
        },
{
    match committed {
        Some((same, epoch, sequence)) => {
            if same {
                StoredCertificateStep::ClearPrepare
            } else if epoch > proposed.0 || (epoch == proposed.0 && sequence > proposed.1) {
                StoredCertificateStep::Superseded
            } else {
                StoredCertificateStep::Apply
            }
        },
        None => StoredCertificateStep::Apply,
    }
}

/// The peers a proposal or commit is sent to, in order: every member of the
/// previous configuration then of the proposed one, except this device,
/// each once; a proposal also skips banned entries.
pub open spec fn recipients(members: Seq<MemberEntry>, local: Seq<char>, skip_banned: bool) -> Seq<Seq<char>>
    decreases members.len(),
{
    if members.len() == 0 {
        Seq::empty()
    } else {
        let earlier = recipients(members.drop_last(), local, skip_banned);
        let m = members.last();
        if (skip_banned && m.banned) || m.peer_id@ == local || earlier.contains(m.peer_id@) {
            earlier
        } else {
            earlier.push(m.peer_id@)
        }
    }
}

fn extend_recipients(
    out: &mut Vec<String>,
    members: &[MemberEntry],
    local: &String,
    skip_banned: bool,
    base: Ghost<Seq<MemberEntry>>,
)
    requires
        crate::text::texts_of(old(out)@) == recipients(base@, local@, skip_banned),
    ensures
        crate::text::texts_of(final(out)@) == recipients(base@ + members@, local@, skip_banned),
{
    let mut i: usize = 0;
    assert(base@ + members@.subrange(0, 0) =~= base@);
    while i < members.len()
        invariant
            i <= members@.len(),
            crate::text::texts_of(out@) == recipients(base@ + members@.subrange(0, i as int), local@, skip_banned),
        decreases members@.len() - i,
    {
        let m = &members[i];
        proof {
            let next = base@ + members@.subrange(0, i + 1);
            assert(next.drop_last() =~= base@ + members@.subrange(0, i as int));
            assert(next.last() == members@[i as int]);
        }
        let mut seen = false;
        let mut k: usize = 0;
        while k < out.len()
            invariant
                k <= out@.len(),
                seen == (exists|j: int| 0 <= j < k && (#[trigger] out@[j])@ == m.peer_id@),
            decreases out@.len() - k,
        {
            if out[k] == m.peer_id {
                seen = true;
            }
            k = k + 1;
        }
        proof {
            let t = crate::text::texts_of(out@);
            if seen {
                let j = choose|j: int| 0 <= j < out@.len() && (#[trigger] out@[j])@ == m.peer_id@;
                assert(t[j] == m.peer_id@);
            } else {
                assert forall|j: int| 0 <= j < t.len() implies t[j] != m.peer_id@ by {
                    assert(t[j] == out@[j]@);
                }
            }
            assert(seen == t.contains(m.peer_id@));
        }
        if !((skip_banned && m.banned) || m.peer_id == *local || seen) {
            let ghost before = out@;
            out.push(m.peer_id.clone());
            assert(crate::text::texts_of(out@) =~= crate::text::texts_of(before).push(m.peer_id@));
        }
        i = i + 1;
    }
    assert(members@.subrange(0, members@.len() as int) =~= members@);
}

/// The peers to send a joint proposal (`skip_banned`) or its commit to.
pub fn transition_recipients(previous: &[MemberEntry], proposed: &[MemberEntry], local: &String, skip_banned: bool) -> (r:
    Vec<String>)
    ensures
        crate::text::texts_of(r@) == recipients(previous@ + proposed@, local@, skip_banned),
{
    let mut out: Vec<String> = Vec::new();
    assert(crate::text::texts_of(out@) =~= Seq::<Seq<char>>::empty());
    assert(Seq::<MemberEntry>::empty() + previous@ =~= previous@);
    extend_recipients(&mut out, previous, local, skip_banned, Ghost(Seq::empty()));
    extend_recipients(&mut out, proposed, local, skip_banned, Ghost(previous@));
    out
}


// ---------------------------------------------------------------------------
// Pending requests
// ---------------------------------------------------------------------------

/// A locally pending join is satisfied once the membership lists the joining
/// peer with the same key and not banned.
pub open spec fn join_satisfied(members: Seq<MemberEntry>, peer: Seq<char>, public_key: Seq<char>) -> bool {
    match find_member(members, peer, 0) {
        Some(i) => members[i].public_key@ == public_key && !members[i].banned,
        None => false,
    }
}

/// Whether a pending join of `peer` with `public_key` can be cleared.
pub fn pending_join_satisfied(members: &[MemberEntry], peer: &String, public_key: &String) -> (r: bool)
    ensures
        r == join_satisfied(members@, peer@, public_key@),
{
    match member_position(members, peer) {
        Some(i) => members[i].public_key == *public_key && !members[i].banned,
        None => false,
    }
}

/// Whether a pending leave of `peer` can be cleared: the membership no longer
/// lists it.
pub fn pending_leave_satisfied(members: &[MemberEntry], peer: &String) -> (r: bool)
    ensures
        r == (find_member(members@, peer@, 0) is None),
{
    member_position(members, peer).is_none()
}

} // verus!
