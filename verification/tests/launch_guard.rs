use swarm_cli::launch_guard::{active_member_count, ensure_sleeping_member_count_safe, ensure_sleeping_world_launch_safe};

#[test]
fn sleeping_solo_world_can_use_direct_launch() {
    assert!(ensure_sleeping_member_count_safe(1).is_ok());
}

#[test]
fn sleeping_multi_member_world_cannot_self_elect_by_direct_launch() {
    let error = ensure_sleeping_member_count_safe(2).unwrap_err();
    assert!(error.message().contains("quorum-backed authority transition"));
    assert!(ensure_sleeping_member_count_safe(3).is_err());
}

#[test]
fn banned_members_do_not_count_towards_a_wake_quorum() {
    assert_eq!(active_member_count(&[false, true, false]), 2);
    assert!(ensure_sleeping_world_launch_safe(&[false, true, true]).is_ok());
    assert!(ensure_sleeping_world_launch_safe(&[false, false]).is_err());
    assert!(ensure_sleeping_world_launch_safe(&[]).is_ok());
    assert!(ensure_sleeping_member_count_safe(0).is_ok());
}
