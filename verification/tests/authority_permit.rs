use swarm_cli::authority_permit::{
    parse_permit, permit_path, permit_text, PermitGeneration, PermitWatch, PERMIT_TIMEOUT_NANOS, standby_step,
    StandbyFacts, StandbyStep, STANDBY_IDLE_MILLIS, STANDBY_POLL_MILLIS,
};

const SECOND: u64 = 1_000_000_000;

#[test]
fn frozen_permit_never_becomes_live() {
    let generation = PermitGeneration { epoch: 4, fencing_token: 9 };
    let text = permit_text(generation, 1);
    let start = 5 * SECOND;
    let mut watch = PermitWatch::new(generation);
    assert!(!watch.observe(&text, start));
    assert!(!watch.observe(&text, start + SECOND));
}

#[test]
fn changing_exact_generation_becomes_live_then_expires() {
    let generation = PermitGeneration { epoch: 11, fencing_token: 22 };
    let start = 5 * SECOND;
    let mut watch = PermitWatch::new(generation);
    assert!(!watch.observe(&permit_text(generation, 1), start));
    assert!(watch.observe(&permit_text(generation, 2), start + SECOND));
    assert!(!watch.is_fresh(start + 8 * SECOND));
}

#[test]
fn different_generation_is_ignored() {
    let expected = PermitGeneration { epoch: 2, fencing_token: 2 };
    let other = PermitGeneration { epoch: 3, fencing_token: 3 };
    let mut watch = PermitWatch::new(expected);
    assert!(!watch.observe(&permit_text(other, 1), SECOND));
    assert!(!watch.observe(&permit_text(other, 2), 2 * SECOND));
    assert!(!watch.is_fresh(2 * SECOND));
}

#[test]
fn permit_text_round_trips() {
    let generation = PermitGeneration { epoch: 7, fencing_token: 18446744073709551615 };
    let text = permit_text(generation, 42);
    assert_eq!(text, "7 18446744073709551615 42\n");
    assert_eq!(parse_permit(&text), Some((generation, 42)));
}

#[test]
fn malformed_permits_are_rejected() {
    assert_eq!(parse_permit(""), None);
    assert_eq!(parse_permit("1 2"), None);
    assert_eq!(parse_permit("1 2 3 4"), None);
    assert_eq!(parse_permit("1 x 3"), None);
    assert_eq!(parse_permit("1 2 18446744073709551616"), None);
    assert_eq!(
        parse_permit("  +1\t2\n 3  "),
        Some((PermitGeneration { epoch: 1, fencing_token: 2 }, 3))
    );
}

#[test]
fn live_permit_expires_exactly_at_timeout() {
    let generation = PermitGeneration { epoch: 1, fencing_token: 1 };
    let mut watch = PermitWatch::new(generation);
    assert!(!watch.observe(&permit_text(generation, 1), 0));
    assert!(watch.observe(&permit_text(generation, 2), 10));
    assert!(watch.is_fresh(10 + PERMIT_TIMEOUT_NANOS - 1));
    assert!(!watch.is_fresh(10 + PERMIT_TIMEOUT_NANOS));
    assert!(watch.is_fresh(3));
    assert!(!watch.observe(&permit_text(generation, 2), 10 + PERMIT_TIMEOUT_NANOS));
}

#[test]
fn permit_lives_under_the_world_control_directory() {
    let path = permit_path(&[0xab; 32]);
    assert_eq!(path.len(), 3);
    assert_eq!(path[0], "control");
    assert_eq!(path[1], "ab".repeat(32));
    assert_eq!(path[2], "authority.permit");
}

fn standby_facts(generation: PermitGeneration) -> StandbyFacts {
    StandbyFacts {
        sleeping: false,
        local_entry: Some((false, true, true)),
        local_is_epoch_authority: true,
        member_count: 3,
        generation,
    }
}

#[test]
fn standby_hosts_only_once_its_generations_permit_changes() {
    let generation = PermitGeneration { epoch: 5, fencing_token: 6 };
    let facts = standby_facts(generation);
    let mut watch = None;
    let first = permit_text(generation, 1);
    let second = permit_text(generation, 2);
    assert_eq!(standby_step(&mut watch, &facts, Some(first.as_str()), SECOND), StandbyStep::Wait { millis: STANDBY_POLL_MILLIS });
    assert_eq!(standby_step(&mut watch, &facts, Some(first.as_str()), 2 * SECOND), StandbyStep::Wait { millis: STANDBY_POLL_MILLIS });
    assert_eq!(standby_step(&mut watch, &facts, None, 2 * SECOND), StandbyStep::Wait { millis: STANDBY_POLL_MILLIS });
    assert_eq!(standby_step(&mut watch, &facts, Some(second.as_str()), 3 * SECOND), StandbyStep::Host);
}

#[test]
fn standby_drops_its_watch_when_asleep_or_not_authority_and_gives_up_when_not_eligible() {
    let generation = PermitGeneration { epoch: 5, fencing_token: 6 };
    let mut watch = None;
    let first = permit_text(generation, 1);
    assert_eq!(
        standby_step(&mut watch, &standby_facts(generation), Some(first.as_str()), SECOND),
        StandbyStep::Wait { millis: STANDBY_POLL_MILLIS }
    );
    assert!(watch.is_some());
    let asleep = StandbyFacts { sleeping: true, ..standby_facts(generation) };
    assert_eq!(standby_step(&mut watch, &asleep, Some(first.as_str()), SECOND), StandbyStep::Wait { millis: STANDBY_IDLE_MILLIS });
    assert!(watch.is_none());
    let other = StandbyFacts { local_is_epoch_authority: false, ..standby_facts(generation) };
    assert_eq!(standby_step(&mut watch, &other, Some(first.as_str()), SECOND), StandbyStep::Wait { millis: STANDBY_IDLE_MILLIS });
    let alone = StandbyFacts { member_count: 1, ..standby_facts(generation) };
    assert_eq!(standby_step(&mut watch, &alone, None, SECOND), StandbyStep::Host);
    let gone = StandbyFacts { local_entry: None, ..standby_facts(generation) };
    assert_eq!(standby_step(&mut watch, &gone, None, SECOND), StandbyStep::NotMember);
    let banned = StandbyFacts { local_entry: Some((true, true, true)), ..standby_facts(generation) };
    assert_eq!(standby_step(&mut watch, &banned, None, SECOND), StandbyStep::NotEligible);
    let observer = StandbyFacts { local_entry: Some((false, false, true)), ..standby_facts(generation) };
    assert_eq!(standby_step(&mut watch, &observer, None, SECOND), StandbyStep::NotEligible);
}

#[test]
fn a_new_generation_restarts_the_standby_watch() {
    let old = PermitGeneration { epoch: 5, fencing_token: 6 };
    let new = PermitGeneration { epoch: 6, fencing_token: 7 };
    let mut watch = None;
    assert_eq!(
        standby_step(&mut watch, &standby_facts(old), Some(permit_text(old, 1).as_str()), SECOND),
        StandbyStep::Wait { millis: STANDBY_POLL_MILLIS }
    );
    assert_eq!(
        standby_step(&mut watch, &standby_facts(new), Some(permit_text(new, 2).as_str()), 2 * SECOND),
        StandbyStep::Wait { millis: STANDBY_POLL_MILLIS }
    );
    assert_eq!(
        standby_step(&mut watch, &standby_facts(new), Some(permit_text(new, 3).as_str()), 3 * SECOND),
        StandbyStep::Host
    );
}

#[test]
fn written_permit_reads_back_its_generation_and_heartbeat() {
    for (epoch, fencing_token, heartbeat) in [(0, 0, 0), (4, 9, 1), (u64::MAX, 10, 1_234_567_890), (7, u64::MAX, u64::MAX)] {
        let generation = PermitGeneration { epoch, fencing_token };
        assert_eq!(parse_permit(&permit_text(generation, heartbeat)), Some((generation, heartbeat)));
    }
}
