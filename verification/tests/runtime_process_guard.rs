use swarm_cli::runtime_process_guard::{
    after_probe, inspect_previous_record, liveness_of, pid_can_be_signalled, safe_to_remove, Liveness,
    PreviousRecordStep, ProcessGuardError, RuntimeProcessGuard, RuntimeProcessRecord, SignalOutcome,
    RUNTIME_PROCESS_RECORD_VERSION,
};

#[test]
fn recorded_java_pid_is_kept_for_a_later_controller() {
    let mut guard = RuntimeProcessGuard::pending("/data/control/w/runtime-process.json".into(), 41);
    assert_eq!(guard.record.java_pid, None);
    guard.record_java(4242);
    assert_eq!(
        guard.record,
        RuntimeProcessRecord { version: RUNTIME_PROCESS_RECORD_VERSION, controller_pid: 41, java_pid: Some(4242) }
    );
}

#[test]
fn live_or_unknown_java_blocks_runtime_reset() {
    let live = RuntimeProcessRecord { version: 1, controller_pid: 1, java_pid: Some(7) };
    assert_eq!(inspect_previous_record(&live), PreviousRecordStep::ProbeJava { pid: 7 });
    let error = after_probe(7, Liveness::Alive).unwrap_err();
    assert!(error.message().contains("still alive"));
    assert_eq!(
        error.message(),
        "previous Minecraft Java process PID 7 is still alive; refusing to reset its runtime directory"
    );
    assert_eq!(after_probe(7, Liveness::Unknown), Err(ProcessGuardError::LivenessUnknown { pid: 7 }));
    assert_eq!(after_probe(7, Liveness::Gone), Ok(()));
}

#[test]
fn ambiguous_or_foreign_records_fail_closed() {
    let pending = RuntimeProcessRecord { version: 1, controller_pid: 1, java_pid: None };
    match inspect_previous_record(&pending) {
        PreviousRecordStep::Refuse { error } => {
            assert!(error.message().contains("before Java ownership was durably recorded"))
        }
        other => panic!("ambiguous record must block, got {other:?}"),
    }
    let future = RuntimeProcessRecord { version: 2, controller_pid: 1, java_pid: Some(3) };
    assert_eq!(
        inspect_previous_record(&future),
        PreviousRecordStep::Refuse { error: ProcessGuardError::UnsupportedVersion }
    );
}

#[test]
fn guards_remove_their_record_only_when_java_is_gone() {
    let unspawned = RuntimeProcessRecord { version: 1, controller_pid: 1, java_pid: None };
    assert!(safe_to_remove(&unspawned, Liveness::Unknown));
    let spawned = RuntimeProcessRecord { version: 1, controller_pid: 1, java_pid: Some(9) };
    assert!(!safe_to_remove(&spawned, Liveness::Alive));
    assert!(!safe_to_remove(&spawned, Liveness::Unknown));
    assert!(safe_to_remove(&spawned, Liveness::Gone));
    assert_eq!(liveness_of(SignalOutcome::PermissionDenied), Liveness::Alive);
    assert_eq!(liveness_of(SignalOutcome::NoSuchProcess), Liveness::Gone);
    assert_eq!(liveness_of(SignalOutcome::OtherError), Liveness::Unknown);
    assert!(pid_can_be_signalled(1));
    assert!(!pid_can_be_signalled(u32::MAX));
}
