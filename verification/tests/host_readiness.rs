use swarm_cli::host_readiness::{
    check_stored_report, readiness_report, recovery_survivors, sleeping_report, unknown_report_at, CanonicalHead,
    EpochMode, EpochRecord, HostCapability, HostReadinessReport, HostReadinessState, HostRuntimeReadiness,
    PeerReadinessObservation, PeerStatus, ServerModsReadiness, StoredReportError, WorldDescriptor, WorldMember,
    local_capability, runtime_hash_readiness, runtime_readiness, server_mod_readiness, ConfigFacts, LaunchFacts,
    RuntimeVerification, ServerModsVerification, jar_hash, local_runtime_readiness, record_runtime_verified,
    runtime_jar_readiness, RuntimeRecordError,
};

fn peer(id: u8) -> String {
    format!("peer-{id}")
}

fn member(id: u8, eligible: bool) -> WorldMember {
    WorldMember { peer_id: peer(id), authority_eligible: eligible, banned: false }
}

fn fixture(member_count: u8) -> (WorldDescriptor, EpochRecord, CanonicalHead) {
    let descriptor = WorldDescriptor {
        world_id: "world-9".into(),
        compatibility_fingerprint: "fingerprint-7".into(),
        members: (1..=member_count).map(|id| member(id, true)).collect(),
    };
    let head = CanonicalHead { sequence: 12, state_root: "root-8".into(), manifest_hash: "manifest-4".into() };
    let epoch = EpochRecord { epoch_number: 5, authority_peer_id: peer(1), mode: EpochMode::Quorum };
    (descriptor, epoch, head)
}

fn observation(
    id: u8,
    descriptor: &WorldDescriptor,
    epoch: &EpochRecord,
    head: &CanonicalHead,
    runtime: HostRuntimeReadiness,
    mods: ServerModsReadiness,
    recovery_quorum: bool,
) -> PeerReadinessObservation {
    PeerReadinessObservation {
        peer_id: peer(id),
        reachable: true,
        status: Some(PeerStatus {
            world_id: descriptor.world_id.clone(),
            epoch: epoch.epoch_number,
            sequence: head.sequence,
            latest_snapshot: Some(head.manifest_hash.clone()),
            state_hash: Some(head.state_root.clone()),
            compatibility_fingerprint: descriptor.compatibility_fingerprint.clone(),
            authority_eligible: true,
        }),
        capability: Some(HostCapability {
            world_id: descriptor.world_id.clone(),
            compatibility_fingerprint: descriptor.compatibility_fingerprint.clone(),
            runtime,
            server_mods: mods,
            conflict_free: true,
            recovery_quorum_without_authority: recovery_quorum,
        }),
    }
}

fn evaluate(
    local: u8,
    descriptor: &WorldDescriptor,
    epoch: &EpochRecord,
    head: &CanonicalHead,
    has_conflicts: bool,
    observations: &[PeerReadinessObservation],
) -> HostReadinessReport {
    readiness_report(&peer(local), descriptor, epoch, head, has_conflicts, observations, 1_000)
}

#[test]
fn healthy_successor_is_safe_only_with_surviving_quorum() {
    let (descriptor, epoch, head) = fixture(3);
    let peers = vec![observation(
        2,
        &descriptor,
        &epoch,
        &head,
        HostRuntimeReadiness::Ready,
        ServerModsReadiness::Ready,
        true,
    )];
    let report = evaluate(1, &descriptor, &epoch, &head, false, &peers);
    assert_eq!(report.state, HostReadinessState::Safe);
    assert!(report.safe_to_shutdown);
    assert_eq!(report.successor_peer_id.as_deref(), Some(peer(2).as_str()));
}

#[test]
fn stale_replica_is_syncing() {
    let (descriptor, epoch, head) = fixture(3);
    let mut bob =
        observation(2, &descriptor, &epoch, &head, HostRuntimeReadiness::Ready, ServerModsReadiness::Ready, true);
    bob.status.as_mut().unwrap().sequence -= 1;
    let report = evaluate(1, &descriptor, &epoch, &head, false, &[bob]);
    assert_eq!(report.state, HostReadinessState::Syncing);
    assert!(!report.safe_to_shutdown);
}

#[test]
fn incompatible_runtime_blocks_shutdown() {
    let (descriptor, epoch, head) = fixture(3);
    let peers = vec![observation(
        2,
        &descriptor,
        &epoch,
        &head,
        HostRuntimeReadiness::Incompatible,
        ServerModsReadiness::Ready,
        true,
    )];
    let report = evaluate(1, &descriptor, &epoch, &head, false, &peers);
    assert_eq!(report.state, HostReadinessState::BlockedByRuntime);
}

#[test]
fn missing_mods_block_shutdown() {
    let (descriptor, epoch, head) = fixture(3);
    let peers = vec![observation(
        2,
        &descriptor,
        &epoch,
        &head,
        HostRuntimeReadiness::Ready,
        ServerModsReadiness::Missing,
        true,
    )];
    let report = evaluate(1, &descriptor, &epoch, &head, false, &peers);
    assert_eq!(report.state, HostReadinessState::BlockedByMods);
}

#[test]
fn offline_successor_means_world_will_stop() {
    let (descriptor, epoch, head) = fixture(3);
    let mut bob =
        observation(2, &descriptor, &epoch, &head, HostRuntimeReadiness::Ready, ServerModsReadiness::Ready, true);
    bob.reachable = false;
    bob.status = None;
    bob.capability = None;
    let report = evaluate(1, &descriptor, &epoch, &head, false, &[bob]);
    assert_eq!(report.state, HostReadinessState::WorldWillStop);
}

#[test]
fn two_member_successor_requires_explicit_handoff() {
    let (descriptor, epoch, head) = fixture(2);
    let peers = vec![observation(
        2,
        &descriptor,
        &epoch,
        &head,
        HostRuntimeReadiness::Ready,
        ServerModsReadiness::Ready,
        false,
    )];
    let report = evaluate(1, &descriptor, &epoch, &head, false, &peers);
    assert_eq!(report.state, HostReadinessState::BlockedByQuorum);
    assert!(!report.safe_to_shutdown);
    assert!(report.handoff_candidate_peer_id.is_some());
}

#[test]
fn solo_authority_is_degraded_not_green() {
    let (descriptor, mut epoch, head) = fixture(3);
    epoch.mode = EpochMode::Solo;
    let peers = vec![observation(
        2,
        &descriptor,
        &epoch,
        &head,
        HostRuntimeReadiness::Ready,
        ServerModsReadiness::Ready,
        true,
    )];
    let report = evaluate(1, &descriptor, &epoch, &head, false, &peers);
    assert_eq!(report.state, HostReadinessState::DegradedSafety);
}

#[test]
fn conflicting_history_is_never_green() {
    let (descriptor, epoch, head) = fixture(3);
    let report = evaluate(1, &descriptor, &epoch, &head, true, &[]);
    assert_eq!(report.state, HostReadinessState::Conflict);
    assert!(!report.safe_to_shutdown);
}

#[test]
fn only_member_means_world_will_stop() {
    let (descriptor, epoch, head) = fixture(1);
    let report = evaluate(1, &descriptor, &epoch, &head, false, &[]);
    assert_eq!(report.state, HostReadinessState::WorldWillStop);
    assert!(!report.safe_to_shutdown);
}

#[test]
fn recovery_quorum_is_measured_without_the_current_authority() {
    let (descriptor, epoch, head) = fixture(3);
    let sarah = observation(
        3,
        &descriptor,
        &epoch,
        &head,
        HostRuntimeReadiness::Unverified,
        ServerModsReadiness::Unverified,
        false,
    );
    assert_eq!(recovery_survivors(&peer(2), &descriptor, &epoch, &head, &[sarah]), Some((3, 2)));

    let (descriptor, epoch, head) = fixture(2);
    assert_eq!(recovery_survivors(&peer(2), &descriptor, &epoch, &head, &[]), Some((2, 1)));
}

#[test]
fn the_authority_itself_cannot_count_towards_recovery() {
    let (descriptor, epoch, head) = fixture(3);
    assert_eq!(recovery_survivors(&peer(1), &descriptor, &epoch, &head, &[]), None);
    assert_eq!(recovery_survivors(&peer(9), &descriptor, &epoch, &head, &[]), None);
    let bob = observation(2, &descriptor, &epoch, &head, HostRuntimeReadiness::Ready, ServerModsReadiness::Ready, true);
    let twice = vec![
        observation(3, &descriptor, &epoch, &head, HostRuntimeReadiness::Ready, ServerModsReadiness::Ready, true),
        observation(3, &descriptor, &epoch, &head, HostRuntimeReadiness::Ready, ServerModsReadiness::Ready, true),
        bob,
    ];
    assert_eq!(recovery_survivors(&peer(2), &descriptor, &epoch, &head, &twice), Some((3, 2)));
}

#[test]
fn report_rows_are_sorted_and_exclude_local_and_banned_members() {
    let (mut descriptor, epoch, head) = fixture(4);
    descriptor.members.reverse();
    descriptor.members[0].banned = true;
    let report = evaluate(1, &descriptor, &epoch, &head, false, &[]);
    let ids: Vec<&str> = report.peers.iter().map(|row| row.peer_id.as_str()).collect();
    assert_eq!(ids, vec!["peer-2", "peer-3"]);
    assert_eq!(report.peers[0].runtime, HostRuntimeReadiness::Unverified);
    assert!(!report.world_data_replicated);
    assert_eq!(report.generated_unix_ms, 1_000);
    assert_eq!(report.current_host_peer_id.as_deref(), Some("peer-1"));
}

#[test]
fn first_sorted_ready_peer_is_the_successor_and_detail_names_it() {
    let (descriptor, epoch, head) = fixture(4);
    let peers = vec![
        observation(4, &descriptor, &epoch, &head, HostRuntimeReadiness::Ready, ServerModsReadiness::Ready, true),
        observation(3, &descriptor, &epoch, &head, HostRuntimeReadiness::Ready, ServerModsReadiness::Ready, true),
    ];
    let report = evaluate(1, &descriptor, &epoch, &head, false, &peers);
    assert_eq!(report.successor_peer_id.as_deref(), Some("peer-3"));
    assert_eq!(report.handoff_candidate_peer_id.as_deref(), Some("peer-3"));
    assert_eq!(
        report.detail,
        "Safe to shut down. peer-3 has the current world state, a verified compatible runtime and mods, and can still form the recovery quorum after this host disappears."
    );
    assert!(report.world_data_replicated);
}

#[test]
fn other_device_is_not_current_host() {
    let (descriptor, epoch, head) = fixture(3);
    let peers = vec![observation(
        3,
        &descriptor,
        &epoch,
        &head,
        HostRuntimeReadiness::Ready,
        ServerModsReadiness::Ready,
        true,
    )];
    let report = evaluate(2, &descriptor, &epoch, &head, false, &peers);
    assert_eq!(report.state, HostReadinessState::NotCurrentHost);
    assert!(!report.safe_to_shutdown);
    assert!(report.successor_peer_id.is_none());
}

#[test]
fn capability_for_another_world_is_incompatible() {
    let (descriptor, epoch, head) = fixture(3);
    let mut bob =
        observation(2, &descriptor, &epoch, &head, HostRuntimeReadiness::Ready, ServerModsReadiness::Ready, true);
    bob.capability.as_mut().unwrap().compatibility_fingerprint = "other".into();
    let report = evaluate(1, &descriptor, &epoch, &head, false, &[bob]);
    assert_eq!(report.peers[0].runtime, HostRuntimeReadiness::Incompatible);
    assert_eq!(report.peers[0].server_mods, ServerModsReadiness::Incompatible);
    assert!(!report.peers[0].conflict_free);
    assert_eq!(report.state, HostReadinessState::BlockedByRuntime);
}

#[test]
fn stale_stored_report_withdraws_its_claims() {
    let (descriptor, epoch, head) = fixture(3);
    let peers = vec![observation(
        2,
        &descriptor,
        &epoch,
        &head,
        HostRuntimeReadiness::Ready,
        ServerModsReadiness::Ready,
        true,
    )];
    let report = evaluate(1, &descriptor, &epoch, &head, false, &peers);
    assert!(matches!(
        check_stored_report(evaluate(1, &descriptor, &epoch, &head, false, &peers), &"other".to_string(), 1_000),
        Err(StoredReportError::OtherWorld)
    ));
    let fresh = check_stored_report(report, &"world-9".to_string(), 7_000).unwrap();
    assert!(fresh.safe_to_shutdown);
    let stale = check_stored_report(fresh, &"world-9".to_string(), 7_001).unwrap();
    assert_eq!(stale.state, HostReadinessState::Unknown);
    assert!(!stale.safe_to_shutdown);
    assert!(stale.successor_peer_id.is_none());
    assert!(!stale.peers[0].reachable && !stale.peers[0].current_state);
    assert!(stale.peers[0].authority_eligible);
}

#[test]
fn unknown_and_sleeping_reports() {
    let unknown = unknown_report_at("w".into(), "p".into(), None, "no data".into(), 5);
    assert_eq!(unknown.state, HostReadinessState::Unknown);
    assert!(!unknown.safe_to_shutdown);
    assert_eq!(unknown.detail, "no data");
    let (descriptor, epoch, head) = fixture(2);
    let obs = vec![observation(2, &descriptor, &epoch, &head, HostRuntimeReadiness::Ready, ServerModsReadiness::Ready, true)];
    let sleeping = sleeping_report("w".into(), "p".into(), "a".into(), &obs, 9);
    assert_eq!(sleeping.state, HostReadinessState::Sleeping);
    assert!(sleeping.safe_to_shutdown);
    assert!(sleeping.world_data_replicated);
    assert!(!sleeping_report("w".into(), "p".into(), "a".into(), &[], 9).world_data_replicated);
}

fn launch() -> LaunchFacts {
    LaunchFacts {
        java: "/java".into(),
        server_jar: "/server.jar".into(),
        mod_jar: "/swarmcraft.jar".into(),
        accept_eula: true,
        java_available: true,
        server_jar_present: true,
        mod_jar_present: true,
    }
}

fn record() -> RuntimeVerification {
    RuntimeVerification {
        schema_version: 1,
        world_id: "w".into(),
        compatibility_fingerprint: "fp".into(),
        java: "/java".into(),
        server_jar: "/server.jar".into(),
        mod_jar: "/swarmcraft.jar".into(),
        server_jar_hash: "s1".into(),
        mod_jar_hash: "m1".into(),
    }
}

#[test]
fn runtime_proof_needs_the_configured_and_unchanged_artifacts() {
    let (w, fp) = ("w".to_string(), "fp".to_string());
    assert_eq!(runtime_readiness(Some(&launch()), None, &w, &fp), Some(HostRuntimeReadiness::Unverified));
    assert_eq!(runtime_readiness(Some(&launch()), Some(&record()), &w, &fp), None);
    assert_eq!(runtime_hash_readiness(&record(), &"s1".to_string(), &"m1".to_string()), HostRuntimeReadiness::Ready);
    assert_eq!(runtime_hash_readiness(&record(), &"s2".to_string(), &"m1".to_string()), HostRuntimeReadiness::Incompatible);
    let moved = LaunchFacts { server_jar: "/other.jar".into(), ..launch() };
    assert_eq!(runtime_readiness(Some(&moved), Some(&record()), &w, &fp), Some(HostRuntimeReadiness::Unverified));
    assert_eq!(runtime_readiness(Some(&launch()), Some(&record()), &w, &"fp2".to_string()), Some(HostRuntimeReadiness::Incompatible));
    assert_eq!(runtime_readiness(None, None, &w, &fp), Some(HostRuntimeReadiness::MissingConfiguration));
    assert_eq!(runtime_readiness(Some(&LaunchFacts { accept_eula: false, ..launch() }), None, &w, &fp), Some(HostRuntimeReadiness::EulaRequired));
    assert_eq!(runtime_readiness(Some(&LaunchFacts { java_available: false, ..launch() }), None, &w, &fp), Some(HostRuntimeReadiness::MissingJava));
    assert_eq!(runtime_readiness(Some(&LaunchFacts { mod_jar_present: false, ..launch() }), None, &w, &fp), Some(HostRuntimeReadiness::MissingSwarmCraftMod));
}

#[test]
fn server_mod_readiness_follows_the_signed_configuration() {
    let (w, fp) = ("w".to_string(), "fp".to_string());
    let config = ConfigFacts { signature_valid: true, fingerprint: "fp".into(), has_user_server_mods: true };
    let verified = ServerModsVerification { schema_version: 1, world_id: "w".into(), compatibility_fingerprint: "fp".into(), state: ServerModsReadiness::Missing };
    assert_eq!(server_mod_readiness(None, None, &w, &fp), ServerModsReadiness::Unverified);
    assert_eq!(server_mod_readiness(Some(&config), None, &w, &fp), ServerModsReadiness::Unverified);
    assert_eq!(server_mod_readiness(Some(&config), Some(&verified), &w, &fp), ServerModsReadiness::Missing);
    let forged = ConfigFacts { signature_valid: false, ..ConfigFacts { signature_valid: true, fingerprint: "fp".into(), has_user_server_mods: true } };
    assert_eq!(server_mod_readiness(Some(&forged), Some(&verified), &w, &fp), ServerModsReadiness::Incompatible);
    let plain = ConfigFacts { signature_valid: true, fingerprint: "fp".into(), has_user_server_mods: false };
    assert_eq!(server_mod_readiness(Some(&plain), None, &w, &fp), ServerModsReadiness::Ready);
    let capability = local_capability("w".into(), "fp".into(), &"other".to_string(), HostRuntimeReadiness::Ready, ServerModsReadiness::Ready, true, false);
    assert_eq!(capability.runtime, HostRuntimeReadiness::Incompatible);
    assert_eq!(capability.server_mods, ServerModsReadiness::Incompatible);
    let same = local_capability("w".into(), "fp".into(), &"fp".to_string(), HostRuntimeReadiness::Ready, ServerModsReadiness::Ready, true, false);
    assert_eq!(same.runtime, HostRuntimeReadiness::Ready);
}

#[test]
fn jar_hash_is_the_blake3_hex_of_the_bytes() {
    assert_eq!(jar_hash(b""), "af1349b9f5f9a1a6a0404dea36dcc9499bcb25c9adc112b7cc9a93cae41f3262");
    assert_eq!(jar_hash(b"abc"), "6437b3ac38465133ffb63b75273a8db548c558465d79db03fd359c6cd5bd9d85");
    assert_eq!(jar_hash(b"server jar"), blake3::hash(b"server jar").to_hex().to_string());
}

#[test]
fn recorded_runtime_stays_ready_until_a_jar_changes() {
    let (w, fp) = ("w".to_string(), "fp".to_string());
    let recorded = match record_runtime_verified(&w, &fp, &launch(), b"server bytes", b"mod bytes") {
        Ok(record) => record,
        Err(error) => panic!("recording failed: {error:?}"),
    };
    assert_eq!(recorded.schema_version, 1);
    assert_eq!(recorded.world_id, "w");
    assert_eq!(recorded.compatibility_fingerprint, "fp");
    assert_eq!(recorded.server_jar, launch().server_jar);
    assert_eq!(recorded.server_jar_hash, jar_hash(b"server bytes"));
    assert_eq!(recorded.mod_jar_hash, jar_hash(b"mod bytes"));
    assert_eq!(runtime_jar_readiness(&recorded, b"server bytes", b"mod bytes"), HostRuntimeReadiness::Ready);
    assert_eq!(runtime_jar_readiness(&recorded, b"server bytes!", b"mod bytes"), HostRuntimeReadiness::Incompatible);
    assert_eq!(runtime_jar_readiness(&recorded, b"server bytes", b"other mod"), HostRuntimeReadiness::Incompatible);
    assert_eq!(
        local_runtime_readiness(Some(&launch()), Some(&recorded), &w, &fp, b"server bytes", b"mod bytes"),
        HostRuntimeReadiness::Ready
    );
    assert_eq!(
        local_runtime_readiness(Some(&launch()), Some(&recorded), &w, &fp, b"changed", b"mod bytes"),
        HostRuntimeReadiness::Incompatible
    );
    assert_eq!(
        local_runtime_readiness(Some(&launch()), None, &w, &fp, b"server bytes", b"mod bytes"),
        HostRuntimeReadiness::Unverified
    );
    assert_eq!(
        local_runtime_readiness(None, Some(&recorded), &w, &fp, b"", b""),
        HostRuntimeReadiness::MissingConfiguration
    );
}

#[test]
fn a_runtime_with_missing_parts_is_never_recorded() {
    let (w, fp) = ("w".to_string(), "fp".to_string());
    let error = |launch: LaunchFacts| record_runtime_verified(&w, &fp, &launch, b"s", b"m").err();
    assert_eq!(error(LaunchFacts { java_available: false, server_jar_present: false, ..launch() }), Some(RuntimeRecordError::MissingJava));
    assert_eq!(error(LaunchFacts { server_jar_present: false, mod_jar_present: false, ..launch() }), Some(RuntimeRecordError::MissingServerJar));
    assert_eq!(error(LaunchFacts { mod_jar_present: false, ..launch() }), Some(RuntimeRecordError::MissingModJar));
    assert_eq!(error(launch()), None);
}
