use swarm_cli::authorization::MemberEntry;
use swarm_cli::world_commands::{
    check_leave_authority, check_leave_membership, check_wake, stop_request, world_safety, LeaveRefusal,
    WorldControlRefusal, WorldSafetyLevel, authority_eligibility, first_broken_link, Eligibility,
};

fn member(peer: &str, key: &str, banned: bool) -> MemberEntry {
    MemberEntry {
        peer_id: peer.to_string(),
        public_key: key.to_string(),
        key_peer_id: peer.to_string(),
        authority_eligible: true,
        banned,
    }
}

#[test]
fn conflicts_outrank_solo_advancement_which_outranks_canonical_history() {
    assert_eq!(world_safety(true, true, true), WorldSafetyLevel::Conflict);
    assert_eq!(world_safety(true, false, false), WorldSafetyLevel::Conflict);
    assert_eq!(world_safety(false, true, false), WorldSafetyLevel::SoloUnreplicated);
    assert_eq!(world_safety(false, false, true), WorldSafetyLevel::SoloUnreplicated);
    assert_eq!(world_safety(false, false, false), WorldSafetyLevel::Canonical);
}

#[test]
fn only_a_listed_unbanned_member_with_its_key_may_leave() {
    let members = vec![member("me", "k1", false), member("banned", "k2", true)];
    assert_eq!(check_leave_membership(&members, &"me".to_string(), &"k1".to_string()), Ok(()));
    assert_eq!(
        check_leave_membership(&members, &"me".to_string(), &"other".to_string()),
        Err(LeaveRefusal::IdentityMismatch)
    );
    assert_eq!(
        check_leave_membership(&members, &"banned".to_string(), &"k2".to_string()),
        Err(LeaveRefusal::IdentityMismatch)
    );
    assert_eq!(
        check_leave_membership(&members, &"stranger".to_string(), &"k3".to_string()),
        Err(LeaveRefusal::NotMember)
    );
    assert_eq!(LeaveRefusal::NotMember.message(), "this peer is not an authorized world member");
}

#[test]
fn the_authority_must_hand_over_before_leaving() {
    assert_eq!(
        check_leave_authority(&"me".to_string(), &"me".to_string()),
        Err(LeaveRefusal::AuthorityMustTransfer)
    );
    assert_eq!(check_leave_authority(&"other".to_string(), &"me".to_string()), Ok(()));
    assert_eq!(
        LeaveRefusal::AuthorityMustTransfer.message(),
        "the current authority must transfer authority before leaving"
    );
}

fn t(text: &str) -> String {
    text.to_string()
}

#[test]
fn only_the_epoch_authority_stops_a_world_and_a_sleeping_world_needs_nothing() {
    assert_eq!(stop_request(true, &t("other"), &t("k"), &t("me"), &t("k")), Ok(false));
    assert_eq!(stop_request(false, &t("me"), &t("k"), &t("me"), &t("k")), Ok(true));
    assert_eq!(stop_request(false, &t("other"), &t("k"), &t("me"), &t("k")), Err(WorldControlRefusal::NotAuthority));
    assert_eq!(stop_request(false, &t("me"), &t("k2"), &t("me"), &t("k")), Err(WorldControlRefusal::NotAuthority));
    assert_eq!(
        WorldControlRefusal::NotAuthority.message(),
        "only the current authority may request a safe world stop"
    );
}

#[test]
fn a_world_wakes_from_its_sleep_snapshot_through_an_eligible_member() {
    let mut ineligible = member("obs", "k2", false);
    ineligible.authority_eligible = false;
    let members = vec![member("me", "k1", false), ineligible, member("gone", "k3", true)];
    assert_eq!(check_wake(&t("h"), &t("h"), &members, &t("me"), &t("k1")), Ok(()));
    assert_eq!(check_wake(&t("h"), &t("h2"), &members, &t("me"), &t("k1")), Err(WorldControlRefusal::SleepRecordStale));
    assert_eq!(check_wake(&t("h"), &t("h"), &members, &t("x"), &t("k1")), Err(WorldControlRefusal::NotMember));
    assert_eq!(check_wake(&t("h"), &t("h"), &members, &t("obs"), &t("k2")), Err(WorldControlRefusal::NotEligibleToWake));
    assert_eq!(check_wake(&t("h"), &t("h"), &members, &t("gone"), &t("k3")), Err(WorldControlRefusal::NotEligibleToWake));
    assert_eq!(check_wake(&t("h"), &t("h"), &members, &t("me"), &t("k9")), Err(WorldControlRefusal::NotEligibleToWake));
}

#[test]
fn authority_eligibility_needs_membership_genesis_and_mods() {
    assert_eq!(authority_eligibility(true, true, true), Eligibility::Compatible);
    assert_eq!(authority_eligibility(true, true, false), Eligibility::ReplicaModsNotReady);
    assert_eq!(authority_eligibility(false, true, false), Eligibility::ReplicaModsNotReady);
    assert_eq!(authority_eligibility(false, true, true), Eligibility::ReplicaNotEligible);
    assert_eq!(authority_eligibility(true, false, true), Eligibility::ReplicaNotEligible);
    assert_eq!(Eligibility::Compatible.message(), "Compatible");
    assert_eq!(Eligibility::ReplicaModsNotReady.message(), "Replica only: server mods missing or incompatible");
    assert_eq!(Eligibility::ReplicaNotEligible.message(), "Replica only: not authority eligible");
}

#[test]
fn snapshot_chain_reports_the_first_broken_link() {
    let link = |previous: Option<&str>, hash: &str| (previous.map(String::from), hash.to_string());
    assert_eq!(first_broken_link(&[]), None);
    assert_eq!(first_broken_link(&[link(None, "h1"), link(Some("h1"), "h2"), link(Some("h2"), "h3")]), None);
    assert_eq!(first_broken_link(&[link(Some("h0"), "h1")]), Some(0));
    assert_eq!(first_broken_link(&[link(None, "h1"), link(Some("hx"), "h2"), link(None, "h3")]), Some(1));
    assert_eq!(first_broken_link(&[link(None, "h1"), link(Some("h1"), "h2"), link(None, "h3")]), Some(2));
}
