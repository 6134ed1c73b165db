use swarm_cli::host_readiness::{EpochMode, WorldMember};
use swarm_cli::migration::{
    managed_seed_expected_sha256, seed_hash_from_fields, SeedHashError,
    accept_step, activate_step, authority_epoch_plan, check_eula, check_observed_epoch, commit_step, direct_launch_gate,
    ensure_same_transfer, generation_unchanged, infer_trigger, launch_wait_step, prepare_step, prepared_transfer,
    runtime_exit_step, supervisor_step, transfer_is_source_generation, transfer_is_successor_generation,
    validate_transfer_target, validate_world_info, AuthorityGeneration, AuthorityTransfer, EpochPlan, EpochPlanError,
    FabricWorldInfo, LaunchError, LaunchWait, LocalIdentity, MemberStanding, MigrationPhase, MigrationTrigger, Pause,
    PrepareStep, RuntimeExitStep, RuntimeLaunchConfig, SleepFacts, SleepState, SnapshotFacts, SupervisorAction,
    SupervisorObservation, SupervisorReason, TransferError, TransferPhase, TransferStep, WorldInfoError,
};

fn identity(peer: &str) -> LocalIdentity {
    LocalIdentity { peer_id: peer.into(), public_key: format!("{peer}-key") }
}

fn generation(authority: &str, epoch: u64, fencing: u64) -> AuthorityGeneration {
    AuthorityGeneration {
        world_id: "world".into(),
        authority_peer_id: authority.into(),
        authority_public_key: format!("{authority}-key"),
        epoch_number: epoch,
        fencing_token: fencing,
        mode: EpochMode::Quorum,
    }
}

fn copy(t: &AuthorityTransfer) -> AuthorityTransfer {
    AuthorityTransfer {
        world_id: t.world_id.clone(),
        from_peer_id: t.from_peer_id.clone(),
        to_peer_id: t.to_peer_id.clone(),
        base_snapshot_hash: t.base_snapshot_hash.clone(),
        next_epoch: t.next_epoch,
        next_fencing_token: t.next_fencing_token,
        phase: t.phase,
        signer_peer_id: t.signer_peer_id.clone(),
    }
}

fn observation() -> SupervisorObservation {
    SupervisorObservation {
        config_available: true,
        outbound_transfer: false,
        sleep: SleepState::Awake,
        wake_requested: false,
        active_members: 3,
        local_member: Some(MemberStanding { banned: false, authority_eligible: true, key_matches: true }),
        holds_generation: Some(true),
    }
}

#[test]
fn a_manual_transfer_moves_authority_exactly_one_generation() {
    let alice = identity("alice");
    let bob = identity("bob");
    let source = generation("alice", 7, 11);
    let prepared =
        prepared_transfer(&"world".to_string(), &alice, &"bob".to_string(), &source, &"snap".to_string()).unwrap();
    assert!(transfer_is_source_generation(&prepared, &source));
    assert_eq!((prepared.next_epoch, prepared.next_fencing_token), (8, 12));
    assert_eq!(prepared.phase, TransferPhase::Prepared);

    let accepted = match accept_step(copy(&prepared), &bob.peer_id, Some(&prepared)).unwrap() {
        TransferStep::Record { next, .. } => next,
        TransferStep::ReturnExisting => panic!("first acceptance must record"),
    };
    assert_eq!(accepted.phase, TransferPhase::Accepted);
    assert_eq!(accepted.signer_peer_id, "bob");
    assert!(matches!(accept_step(copy(&prepared), &bob.peer_id, Some(&accepted)), Ok(TransferStep::ReturnExisting)));
    assert_eq!(
        accept_step(copy(&prepared), &alice.peer_id, None).err(),
        Some(TransferError::WrongParticipant)
    );

    let committed = match commit_step(copy(&accepted), &alice.peer_id, Some(&accepted)).unwrap() {
        TransferStep::Record { next, .. } => next,
        TransferStep::ReturnExisting => panic!("first commit must record"),
    };
    assert_eq!(committed.phase, TransferPhase::Committed);
    assert!(matches!(commit_step(copy(&accepted), &alice.peer_id, Some(&committed)), Ok(TransferStep::ReturnExisting)));
    assert_eq!(
        accept_step(copy(&prepared), &bob.peer_id, Some(&committed)).err(),
        Some(TransferError::AlreadyCommitted)
    );

    assert_eq!(activate_step(&committed, &bob, Some(&prepared), &source).err(), Some(TransferError::NotAccepted));
    let next = activate_step(&committed, &bob, Some(&accepted), &source).unwrap();
    assert_eq!((next.epoch_number, next.fencing_token), (8, 12));
    assert_eq!(next.authority_peer_id, "bob");
    assert_eq!(next.mode, EpochMode::Quorum);
    assert!(transfer_is_successor_generation(&committed, &next, &bob.peer_id));
    assert_eq!(infer_trigger(&next, Some(&committed), &bob.peer_id), MigrationTrigger::ManualTransfer);
    let moved_on = generation("alice", 8, 12);
    assert_eq!(activate_step(&committed, &bob, None, &moved_on).err(), Some(TransferError::NoLongerExtends));
    assert!(check_observed_epoch(&next, true, &source, &committed).is_ok());
    assert_eq!(check_observed_epoch(&next, false, &source, &committed), Err(TransferError::NoLongerExtends));
}

#[test]
fn transfers_are_refused_at_their_edges() {
    let alice = identity("alice");
    let exhausted = generation("alice", u64::MAX, 1);
    assert_eq!(
        prepared_transfer(&"world".to_string(), &alice, &"bob".to_string(), &exhausted, &"s".to_string()).err(),
        Some(TransferError::EpochExhausted)
    );
    let members = vec![
        WorldMember { peer_id: "bob".into(), authority_eligible: true, banned: false },
        WorldMember { peer_id: "carol".into(), authority_eligible: false, banned: false },
    ];
    assert_eq!(validate_transfer_target(&"alice".to_string(), &"alice".to_string(), &members), Err(TransferError::TargetIsSelf));
    assert_eq!(validate_transfer_target(&"alice".to_string(), &"bob".to_string(), &members), Ok(()));
    assert_eq!(validate_transfer_target(&"alice".to_string(), &"carol".to_string(), &members), Err(TransferError::TargetIneligible));
    assert_eq!(validate_transfer_target(&"alice".to_string(), &"dave".to_string(), &members), Err(TransferError::TargetNotMember));
    let source = generation("alice", 1, 1);
    let t = prepared_transfer(&"world".to_string(), &alice, &"bob".to_string(), &source, &"s".to_string()).unwrap();
    let mut other = copy(&t);
    other.base_snapshot_hash = "other".into();
    assert_eq!(ensure_same_transfer(&t, &other), Err(TransferError::DifferentTransfer));
    assert_eq!(
        prepare_step(&"alice".to_string(), &"bob".to_string(), Some(&t), None, &source, &"s".to_string()),
        Ok(PrepareStep::ReturnExisting)
    );
    assert_eq!(
        prepare_step(&"alice".to_string(), &"carol".to_string(), Some(&t), None, &source, &"s".to_string()),
        Err(TransferError::AnotherTransferActive)
    );
    let sleep = SleepFacts { latest_snapshot_hash: "s".into(), epoch: 1, fencing_token: 1 };
    assert_eq!(
        prepare_step(&"alice".to_string(), &"bob".to_string(), None, Some(&sleep), &source, &"s".to_string()),
        Ok(PrepareStep::PrepareNow)
    );
    assert_eq!(
        prepare_step(&"alice".to_string(), &"bob".to_string(), None, None, &source, &"s".to_string()),
        Ok(PrepareStep::RequestCheckpoint)
    );
}

#[test]
fn the_supervisor_hosts_only_when_entitled() {
    assert_eq!(supervisor_step(&observation()), SupervisorAction::HostWhenSafe);
    let mut o = observation();
    o.config_available = false;
    assert_eq!(
        supervisor_step(&o),
        SupervisorAction::Publish {
            trigger: None,
            phase: MigrationPhase::Blocked,
            reason: Some(SupervisorReason::ConfigUnavailable),
            pause: Pause::Second
        }
    );
    let mut o = observation();
    o.sleep = SleepState::Sleeping;
    o.wake_requested = true;
    match supervisor_step(&o) {
        SupervisorAction::Publish { reason: Some(reason), phase: MigrationPhase::Blocked, .. } => {
            assert!(reason.message().contains("multi-member wake"))
        }
        other => panic!("unexpected {other:?}"),
    }
    o.active_members = 1;
    assert_eq!(supervisor_step(&o), SupervisorAction::HostAfterWake);
    let mut o = observation();
    o.local_member = Some(MemberStanding { banned: true, authority_eligible: true, key_matches: true });
    assert!(matches!(
        supervisor_step(&o),
        SupervisorAction::Publish { reason: Some(SupervisorReason::NotEligible), .. }
    ));
    let mut o = observation();
    o.holds_generation = Some(false);
    assert!(matches!(
        supervisor_step(&o),
        SupervisorAction::Publish { phase: MigrationPhase::WaitingForAuthority, reason: None, pause: Pause::Poll, .. }
    ));
    let mut o = observation();
    o.outbound_transfer = true;
    assert!(matches!(
        supervisor_step(&o),
        SupervisorAction::Publish { phase: MigrationPhase::AwaitingTransferAcceptance, .. }
    ));
}

#[test]
fn launches_wait_for_safety_and_stop_on_change() {
    assert_eq!(launch_wait_step(1, false, true, false), LaunchWait::LaunchNow);
    assert_eq!(launch_wait_step(3, false, false, true), LaunchWait::Abort);
    assert_eq!(launch_wait_step(3, true, true, true), LaunchWait::Abort);
    assert_eq!(launch_wait_step(3, true, false, false), LaunchWait::KeepWaiting);
    assert_eq!(launch_wait_step(3, true, false, true), LaunchWait::LaunchNow);
    assert_eq!(direct_launch_gate(1, true, false), Ok(false));
    assert_eq!(direct_launch_gate(2, true, true), Err(LaunchError::MultiMemberSleeping));
    assert_eq!(direct_launch_gate(2, false, false), Err(LaunchError::NotAuthority));
    assert_eq!(direct_launch_gate(2, false, true), Ok(true));
    assert_eq!(runtime_exit_step(Some(true), false, true, true), RuntimeExitStep::Sleep);
    assert_eq!(runtime_exit_step(Some(false), true, false, false), RuntimeExitStep::Failed);
    assert_eq!(runtime_exit_step(None, false, true, true), RuntimeExitStep::Superseded);
    assert_eq!(runtime_exit_step(None, true, true, true), RuntimeExitStep::SafeStop);
    assert_eq!(runtime_exit_step(None, true, false, true), RuntimeExitStep::Transfer);
    assert_eq!(runtime_exit_step(None, true, false, false), RuntimeExitStep::KeepRunning);
    let config = RuntimeLaunchConfig {
        java: "java".into(),
        server_jar: "server.jar".into(),
        mod_jar: "mod.jar".into(),
        accept_eula: false,
        game_endpoint: None,
    };
    let options = config.host_options("world".into());
    assert_eq!(options.world, "world");
    assert_eq!(options.java, "java");
    assert_eq!(check_eula(&options), Err(LaunchError::EulaNotAccepted));
    let alice = identity("alice");
    assert!(generation_unchanged(&generation("alice", 2, 3), &generation("alice", 2, 3), &alice));
    assert!(!generation_unchanged(&generation("alice", 2, 4), &generation("alice", 2, 3), &alice));
    assert!(!generation_unchanged(&generation("bob", 2, 3), &generation("alice", 2, 3), &alice));
}

#[test]
fn hosting_generations_are_planned_fail_closed() {
    let alice = identity("alice");
    let eligible = Some(MemberStanding { banned: false, authority_eligible: true, key_matches: true });
    let latest = SnapshotFacts {
        manifest_hash: "snap".into(),
        epoch: 4,
        authority_peer_id: "alice".into(),
        authority_public_key: "alice-key".into(),
    };
    let world = "world".to_string();
    assert!(matches!(authority_epoch_plan(&world, &alice, None, None, None, &latest), Err(EpochPlanError::NotMember)));
    let banned = Some(MemberStanding { banned: true, authority_eligible: true, key_matches: true });
    assert!(matches!(authority_epoch_plan(&world, &alice, banned, None, None, &latest), Err(EpochPlanError::NotEligible)));
    let previous = generation("bob", 9, 20);
    match authority_epoch_plan(&world, &alice, eligible, Some(&"snap".to_string()), Some(&previous), &latest) {
        Ok(EpochPlan::Create(g)) => {
            assert_eq!((g.epoch_number, g.fencing_token, g.mode), (10, 21, EpochMode::Solo));
            assert_eq!(g.authority_peer_id, "alice");
        }
        _ => panic!("waking must create a new solo generation"),
    }
    assert!(matches!(
        authority_epoch_plan(&world, &alice, eligible, Some(&"older".to_string()), Some(&previous), &latest),
        Err(EpochPlanError::StaleReplica)
    ));
    assert!(matches!(
        authority_epoch_plan(&world, &alice, eligible, None, Some(&previous), &latest),
        Err(EpochPlanError::NotAuthority)
    ));
    let held = generation("alice", 9, 20);
    assert!(matches!(authority_epoch_plan(&world, &alice, eligible, None, Some(&held), &latest), Ok(EpochPlan::UseAccepted)));
    match authority_epoch_plan(&world, &alice, eligible, None, None, &latest) {
        Ok(EpochPlan::Create(g)) => assert_eq!((g.epoch_number, g.fencing_token), (4, 1)),
        _ => panic!("the snapshot author starts the initial generation"),
    }
    let bob = identity("bob");
    assert!(matches!(authority_epoch_plan(&world, &bob, eligible, None, None, &latest), Err(EpochPlanError::NoGeneration)));
}

#[test]
fn launched_world_must_be_the_restored_one() {
    let info = FabricWorldInfo {
        minecraft_version: "1.21.8".into(),
        fabric_loader_version: "0.17.2".into(),
        compatibility_fingerprint: "fp".into(),
    };
    let mc = "1.21.8".to_string();
    let fp = "fp".to_string();
    assert_eq!(validate_world_info(&info, &mc, &"0.17.2".to_string(), true, &fp), Ok(()));
    assert_eq!(validate_world_info(&info, &mc, &"unknown".to_string(), true, &fp), Ok(()));
    assert_eq!(
        validate_world_info(&info, &"1.20.1".to_string(), &"0.17.2".to_string(), true, &fp),
        Err(WorldInfoError::MinecraftMismatch)
    );
    assert_eq!(
        validate_world_info(&info, &mc, &"0.16.0".to_string(), true, &fp),
        Err(WorldInfoError::LoaderMismatch)
    );
    assert_eq!(
        validate_world_info(&info, &mc, &"0.17.2".to_string(), false, &fp),
        Err(WorldInfoError::DirectoryMismatch)
    );
    assert_eq!(
        validate_world_info(&info, &mc, &"0.17.2".to_string(), true, &"other".to_string()),
        Err(WorldInfoError::FingerprintMismatch)
    );
    let recovery = AuthorityGeneration { mode: EpochMode::Recovery, ..generation("alice", 1, 1) };
    assert_eq!(infer_trigger(&recovery, None, &"alice".to_string()), MigrationTrigger::AutomaticRecovery);
    assert_eq!(infer_trigger(&generation("alice", 1, 1), None, &"alice".to_string()), MigrationTrigger::DirectHost);
}

const SEED_WORLD: &str = "0101010101010101010101010101010101010101010101010101010101010101";
const SEED_HASH: &str = "ABCDEF0123456789abcdef0123456789ABCDEF0123456789abcdef0123456789";

fn seed_lock(schema: &str, world: &str, minecraft: &str, sha: &str) -> Vec<u8> {
    format!(
        r#"{{"schema_version": {schema}, "world_id": "{world}", "minecraft_version": "{minecraft}",
            "artifacts": {{"minecraft_server": {{"sha256": "{sha}"}}}}}}"#
    )
    .into_bytes()
}

#[test]
fn a_managed_runtime_lock_gives_the_lowercased_server_hash_of_its_own_world_and_version() {
    let lock = seed_lock("1", SEED_WORLD, "1.21.8", SEED_HASH);
    assert_eq!(
        managed_seed_expected_sha256(&lock, &SEED_WORLD.to_string(), &"1.21.8".to_string()),
        Ok(SEED_HASH.to_ascii_lowercase())
    );
}

#[test]
fn a_managed_runtime_lock_that_does_not_fit_is_refused_with_its_reason() {
    let world = SEED_WORLD.to_string();
    let mc = "1.21.8".to_string();
    assert_eq!(managed_seed_expected_sha256(b"not json", &world, &mc), Err(SeedHashError::Malformed));
    assert_eq!(managed_seed_expected_sha256(b"{}", &world, &mc), Err(SeedHashError::NoSchemaVersion));
    assert_eq!(
        managed_seed_expected_sha256(&seed_lock("2", SEED_WORLD, "1.21.8", SEED_HASH), &world, &mc),
        Err(SeedHashError::IncompatibleSchema)
    );
    assert_eq!(
        managed_seed_expected_sha256(&seed_lock("1", "02", "1.21.8", SEED_HASH), &world, &mc),
        Err(SeedHashError::OtherWorld)
    );
    assert_eq!(
        managed_seed_expected_sha256(&seed_lock("1", SEED_WORLD, "1.20.1", SEED_HASH), &world, &mc),
        Err(SeedHashError::OtherMinecraftVersion)
    );
    assert_eq!(
        managed_seed_expected_sha256(&seed_lock("1", SEED_WORLD, "1.21.8", "xyz"), &world, &mc),
        Err(SeedHashError::InvalidSha256)
    );
    assert_eq!(
        managed_seed_expected_sha256(&seed_lock("1", SEED_WORLD, "1.21.8", "abcd"), &world, &mc),
        Err(SeedHashError::Sha256Length)
    );
    assert_eq!(
        managed_seed_expected_sha256(br#"{"schema_version": 1}"#, &world, &mc),
        Err(SeedHashError::NoWorld)
    );
    assert_eq!(
        seed_hash_from_fields(Some((Some(1), Some(world.clone()), Some(mc.clone()), None)), &world, &mc),
        Err(SeedHashError::NoSha256)
    );
    assert_eq!(
        seed_hash_from_fields(Some((Some(1), Some(world.clone()), None, None)), &world, &mc),
        Err(SeedHashError::NoMinecraftVersion)
    );
    assert_eq!(
        SeedHashError::Sha256Length.message(),
        "managed runtime lock contains an invalid Minecraft SHA-256 length"
    );
}
